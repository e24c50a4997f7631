//! What the foes of a stage do on their turn.
//!
//! A foe lists what it could do (wait, attack a neighbouring avatar, step to a
//! free tile), keeps the steps that agree with what players have witnessed of
//! it, then attacks a visible avatar, closes in on one, or waits.

use vstd::prelude::*;
use std::collections::BTreeMap;
use crate::board::{count_cell, count_cells, count_cols, count_in, count_grid_new, count_grid_get, count_grid_set};
use crate::bounds::PositionBound;
use crate::maps::{map_keys, player_keys, increasing_u32};
use crate::stage::{AvatarId, Stage, StageState};
use crate::types::{Avatar, Direction, Foe, PlayerId, Position, Tile, Tiles, spec_position_add, spec_dist,
    spec_dist_manhattan, lemma_move_and_back};

verus! {

broadcast use {
    vstd::std_specs::btree::group_btree_axioms,
    vstd::laws_cmp::group_laws_cmp,
    vstd::std_specs::btree::axiom_key_obeys_cmp_spec_meaning,
};

/// What a foe does on its turn.
#[derive(Debug, Clone, Copy, PartialEq, Eq, Structural)]
pub enum FoeAction {
    Wait,
    Attack(AvatarId),
    Move(Position),
}

impl FoeAction {
    pub open spec fn spec_next_position(&self, foe: Foe) -> Position {
        match self {
            FoeAction::Move(p) => *p,
            _ => foe.spec_position(),
        }
    }

    /// Where the foe stands after the action.
    pub fn next_position(&self, foe: &Foe) -> (r: Position)
        ensures
            r == self.spec_next_position(*foe),
    {
        match self {
            FoeAction::Wait => foe.position(),
            FoeAction::Attack(_) => foe.position(),
            FoeAction::Move(position) => *position,
        }
    }
}

/// The eight directions, in the order a foe looks around.
pub open spec fn dirs8() -> Seq<Direction> {
    seq![
        Direction::Up,
        Direction::UpRight,
        Direction::Right,
        Direction::DownRight,
        Direction::Down,
        Direction::DownLeft,
        Direction::Left,
        Direction::UpLeft,
    ]
}

fn dir_at(i: usize) -> (d: Direction)
    requires
        i < 8,
    ensures
        d == dirs8()[i as int],
{
    match i {
        0 => Direction::Up,
        1 => Direction::UpRight,
        2 => Direction::Right,
        3 => Direction::DownRight,
        4 => Direction::Down,
        5 => Direction::DownLeft,
        6 => Direction::Left,
        _ => Direction::UpLeft,
    }
}

proof fn lemma_dirs8_complete(d: Direction)
    ensures
        exists|i: int| 0 <= i < 8 && dirs8()[i] == d,
{
    match d {
        Direction::Up => assert(dirs8()[0] == d),
        Direction::UpRight => assert(dirs8()[1] == d),
        Direction::Right => assert(dirs8()[2] == d),
        Direction::DownRight => assert(dirs8()[3] == d),
        Direction::Down => assert(dirs8()[4] == d),
        Direction::DownLeft => assert(dirs8()[5] == d),
        Direction::Left => assert(dirs8()[6] == d),
        Direction::UpLeft => assert(dirs8()[7] == d),
    }
}

/// `p` is the smallest player whose avatar stands at `pos`.
pub open spec fn is_first_avatar_at(avatars: Map<PlayerId, Avatar>, pos: Position, p: PlayerId) -> bool {
    &&& avatars.contains_key(p)
    &&& avatars[p].position == pos
    &&& forall|q: PlayerId| #[trigger] avatars.contains_key(q) && avatars[q].position == pos ==> p <= q
}

/// The smallest player whose avatar stands at `pos`, if any.
pub open spec fn spec_avatar_at(avatars: Map<PlayerId, Avatar>, pos: Position) -> Option<PlayerId> {
    if exists|p: PlayerId| is_first_avatar_at(avatars, pos, p) {
        Some(choose|p: PlayerId| is_first_avatar_at(avatars, pos, p))
    } else {
        None
    }
}

/// The avatar standing at `pos`, the one of the smallest player id when several do.
pub fn avatar_at(avatars: &BTreeMap<PlayerId, Avatar>, pos: Position) -> (r: Option<PlayerId>)
    ensures
        r == spec_avatar_at(avatars@, pos),
        r is None <==> forall|q: PlayerId| #[trigger] avatars@.contains_key(q) ==> avatars@[q].position != pos,
{
    let keys = player_keys(avatars);
    let n = keys.len();
    let mut i: usize = 0;
    while i < n
        invariant
            n == keys@.len(),
            i <= n,
            keys@.to_set() == avatars@.dom(),
            increasing_u32(keys@),
            forall|j: int| 0 <= j < i ==> #[trigger] avatars@[keys@[j]].position != pos,
        decreases n - i,
    {
        let k = keys[i];
        proof {
            assert(keys@.to_set().contains(k));
        }
        let here = match avatars.get(&k) {
            Some(a) => a.position == pos,
            None => false,
        };
        if here {
            proof {
                assert forall|q: PlayerId| #[trigger] avatars@.contains_key(q) && avatars@[q].position == pos implies k <= q by {
                    assert(keys@.to_set().contains(q));
                    let j = choose|j: int| 0 <= j < keys@.len() && keys@[j] == q;
                    if j < i {
                        assert(avatars@[keys@[j]].position != pos);
                    } else if j > i {
                        assert(keys@[i as int] < keys@[j]);
                    }
                }
                assert(is_first_avatar_at(avatars@, pos, k));
                let c = choose|p: PlayerId| is_first_avatar_at(avatars@, pos, p);
                assert(c <= k && k <= c);
            }
            return Some(k);
        }
        i = i + 1;
    }
    proof {
        assert forall|q: PlayerId| #[trigger] avatars@.contains_key(q) implies avatars@[q].position != pos by {
            assert(keys@.to_set().contains(q));
            let j = choose|j: int| 0 <= j < keys@.len() && keys@[j] == q;
            assert(avatars@[keys@[j]].position != pos);
        }
        assert(!exists|p: PlayerId| is_first_avatar_at(avatars@, pos, p));
    }
    None
}

/// No foe stands at `pos`.
pub open spec fn no_foe_at(foes: Seq<Foe>, pos: Position) -> bool {
    forall|j: int| 0 <= j < foes.len() ==> #[trigger] foes[j].spec_position() != pos
}

/// What a foe at `p` can do towards `d`: attack the avatar there, step onto a
/// free tile that can be travelled, or nothing.
pub open spec fn spec_step_action(
    p: Position,
    tiles: Tiles,
    avatars: Map<PlayerId, Avatar>,
    foes: Seq<Foe>,
    d: Direction,
) -> Option<FoeAction> {
    let np = spec_position_add(p, d.spec_offset());
    match spec_avatar_at(avatars, np) {
        Some(a) => Some(FoeAction::Attack(a)),
        None => if tiles.spec_get(np).spec_can_travel() && no_foe_at(foes, np) {
            Some(FoeAction::Move(np))
        } else {
            None
        },
    }
}

/// Waiting, then what the first `k` directions offer.
pub open spec fn spec_roaming_actions(
    p: Position,
    tiles: Tiles,
    avatars: Map<PlayerId, Avatar>,
    foes: Seq<Foe>,
    k: nat,
) -> Seq<FoeAction>
    decreases k,
{
    if k == 0 {
        seq![FoeAction::Wait]
    } else {
        let prev = spec_roaming_actions(p, tiles, avatars, foes, (k - 1) as nat);
        match spec_step_action(p, tiles, avatars, foes, dirs8()[k - 1]) {
            Some(a) => prev.push(a),
            None => prev,
        }
    }
}

/// Everything a foe can do: a trap waits or attacks the avatar on its own
/// tile; a roaming foe waits or acts towards each of the eight directions.
pub open spec fn spec_possible_actions(
    foe: Foe,
    tiles: Tiles,
    avatars: Map<PlayerId, Avatar>,
    foes: Seq<Foe>,
) -> Seq<FoeAction> {
    match foe {
        Foe::MindSnare(p) => match spec_avatar_at(avatars, p) {
            Some(a) => seq![FoeAction::Wait, FoeAction::Attack(a)],
            None => seq![FoeAction::Wait],
        },
        Foe::Simple(p, _) => spec_roaming_actions(p, tiles, avatars, foes, 8),
    }
}

/// A move, if `a` is one, goes one step from `from` onto a tile that can be
/// travelled and where no foe stands.
pub open spec fn legal_move(a: FoeAction, from: Position, tiles: Tiles, foes: Seq<Foe>) -> bool {
    match a {
        FoeAction::Move(q) => {
            &&& tiles.spec_get(q).spec_can_travel()
            &&& no_foe_at(foes, q)
            &&& exists|d: Direction| q == #[trigger] spec_position_add(from, d.spec_offset())
        },
        _ => true,
    }
}

proof fn lemma_roaming_moves_are_legal(p: Position, tiles: Tiles, avatars: Map<PlayerId, Avatar>, foes: Seq<Foe>, k: nat)
    requires
        k <= 8,
    ensures
        forall|j: int| 0 <= j < spec_roaming_actions(p, tiles, avatars, foes, k).len()
            ==> legal_move(#[trigger] spec_roaming_actions(p, tiles, avatars, foes, k)[j], p, tiles, foes),
    decreases k,
{
    if k > 0 {
        lemma_roaming_moves_are_legal(p, tiles, avatars, foes, (k - 1) as nat);
        let prev = spec_roaming_actions(p, tiles, avatars, foes, (k - 1) as nat);
        let d = dirs8()[k - 1];
        let cur = spec_roaming_actions(p, tiles, avatars, foes, k);
        assert forall|j: int| 0 <= j < cur.len() implies legal_move(#[trigger] cur[j], p, tiles, foes) by {
            if j < prev.len() {
                assert(cur[j] == prev[j]);
            } else {
                assert(legal_move(cur[j], p, tiles, foes)) by {
                    if cur[j] is Move {
                        assert(cur[j] == FoeAction::Move(spec_position_add(p, d.spec_offset())));
                    }
                }
            }
        }
    }
}

/// A foe can only move one step, onto a tile that can be travelled and where
/// no foe stands.
pub proof fn lemma_foe_moves_are_legal(foe: Foe, tiles: Tiles, avatars: Map<PlayerId, Avatar>, foes: Seq<Foe>)
    ensures
        forall|j: int| 0 <= j < spec_possible_actions(foe, tiles, avatars, foes).len()
            ==> legal_move(#[trigger] spec_possible_actions(foe, tiles, avatars, foes)[j], foe.spec_position(), tiles, foes),
{
    match foe {
        Foe::MindSnare(p) => {
            assert forall|j: int| 0 <= j < spec_possible_actions(foe, tiles, avatars, foes).len()
                implies legal_move(#[trigger] spec_possible_actions(foe, tiles, avatars, foes)[j], foe.spec_position(), tiles, foes) by {}
        },
        Foe::Simple(p, _) => {
            lemma_roaming_moves_are_legal(p, tiles, avatars, foes, 8);
        },
    }
}

/// Compute all possible actions for a foe in the current situation
pub fn compute_possible_actions(foe: &Foe, stage: &Stage, state: &StageState) -> (r: Vec<FoeAction>)
    ensures
        r@ == spec_possible_actions(*foe, stage.template.tiles, state.avatars@, state.foes@),
        r@.len() >= 1,
        r@[0] == FoeAction::Wait,
        forall|j: int| 0 <= j < r@.len() ==> legal_move(#[trigger] r@[j], foe.spec_position(), stage.template.tiles, state.foes@),
{
    proof {
        lemma_foe_moves_are_legal(*foe, stage.template.tiles, state.avatars@, state.foes@);
    }
    let mut actions: Vec<FoeAction> = Vec::new();
    actions.push(FoeAction::Wait);
    match foe {
        Foe::MindSnare(p) => {
            // A trap can only attack avatars on its own tile
            if let Some(aid) = avatar_at(&state.avatars, *p) {
                actions.push(FoeAction::Attack(aid));
            }
            assert(actions@ =~= spec_possible_actions(*foe, stage.template.tiles, state.avatars@, state.foes@));
        },
        Foe::Simple(p, _) => {
            let p = *p;
            let mut i: usize = 0;
            while i < 8
                invariant
                    i <= 8,
                    *foe matches Foe::Simple(q, _) && q == p,
                    actions@ == spec_roaming_actions(p, stage.template.tiles, state.avatars@, state.foes@, i as nat),
                    actions@.len() >= 1,
                    actions@[0] == FoeAction::Wait,
                decreases 8 - i,
            {
                let dir = dir_at(i);
                let new_pos = p.move_once(dir);
                match avatar_at(&state.avatars, new_pos) {
                    Some(aid) => {
                        actions.push(FoeAction::Attack(aid));
                    },
                    None => {
                        let tile = stage.template.tiles.get(new_pos);
                        if tile.can_travel() && state.find_foe(new_pos).is_none() {
                            actions.push(FoeAction::Move(new_pos));
                        }
                    },
                }
                i = i + 1;
            }
        },
    }
    actions
}


/// Whether the grid of counts holds a cell at `p`.
pub open spec fn bin(g: grid::Grid<u8>, p: Position) -> bool {
    count_in(g, p.x as int, p.y as int)
}

/// The count at `p`.
pub open spec fn bcell(g: grid::Grid<u8>, p: Position) -> u8 {
    count_cell(g, p.x as int, p.y as int)
}

/// The grid has one cell for each tile of the map.
pub open spec fn covers_map(g: grid::Grid<u8>, tiles: Tiles) -> bool {
    forall|p: Position| #[trigger] bin(g, p) <==> tiles.spec_in(p)
}

/// A positive count at `c` comes from a tile that can be travelled and a
/// neighbour with a greater count.
pub open spec fn justified_at(g: grid::Grid<u8>, tiles: Tiles, c: Position) -> bool {
    bcell(g, c) > 0 ==> {
        &&& tiles.spec_get(c).spec_can_travel()
        &&& exists|d: Direction| #[trigger] bin(g, spec_position_add(c, d.spec_offset()))
            && bcell(g, spec_position_add(c, d.spec_offset())) > bcell(g, c)
    }
}

/// Every neighbour of `n` that can be travelled has a count at most one below
/// that of `n`.
pub open spec fn closed_at(g: grid::Grid<u8>, tiles: Tiles, n: Position) -> bool {
    forall|d: Direction| #[trigger] bin(g, spec_position_add(n, d.spec_offset()))
        && tiles.spec_get(spec_position_add(n, d.spec_offset())).spec_can_travel()
        ==> bcell(g, spec_position_add(n, d.spec_offset())) + 1 >= bcell(g, n)
}

/// The grid of how many turns are left, on each tile, to a foe that must be at
/// `start` within `budget - 1` turns: the budget at `start`, one less on each
/// step over tiles that can be travelled, never below zero. A grid of zeros
/// when `start` lies outside the map.
///
/// The clauses pin the grid down: the counts are at least the budget minus the
/// length of a travelled path from `start` (the closure), and no more (each
/// positive count comes down from `start` by strictly decreasing neighbours).
pub open spec fn is_reach_grid(g: grid::Grid<u8>, tiles: Tiles, start: Position, budget: u8) -> bool {
    &&& covers_map(g, tiles)
    &&& bin(g, start) ==> bcell(g, start) == budget
    &&& !bin(g, start) ==> forall|p: Position| #[trigger] bin(g, p) ==> bcell(g, p) == 0
    &&& forall|c: Position| #[trigger] bin(g, c) && c != start ==> justified_at(g, tiles, c)
    &&& forall|n: Position| #[trigger] bin(g, n) && bcell(g, n) > 0 ==> closed_at(g, tiles, n)
}

proof fn lemma_step_moves(p: Position, d: Direction)
    ensures
        spec_position_add(p, d.spec_offset()) != p,
{
}

/// Raising a cell to one less than a neighbour keeps every positive cell justified.
proof fn lemma_raise_keeps_justified(
    g0: grid::Grid<u8>,
    g1: grid::Grid<u8>,
    tiles: Tiles,
    start: Position,
    p: Position,
    d: Direction,
    v: u8,
)
    requires
        v >= 1,
        bin(g0, p),
        bcell(g0, p) == v,
        bin(g0, spec_position_add(p, d.spec_offset())),
        tiles.spec_get(spec_position_add(p, d.spec_offset())).spec_can_travel(),
        bcell(g1, spec_position_add(p, d.spec_offset())) == v - 1,
        bcell(g0, spec_position_add(p, d.spec_offset())) < v - 1,
        forall|r: Position| #[trigger] bin(g1, r) == bin(g0, r),
        forall|r: Position| #[trigger] bin(g0, r) && r != spec_position_add(p, d.spec_offset())
            ==> bcell(g1, r) == bcell(g0, r),
        forall|c: Position| #[trigger] bin(g0, c) && c != start ==> justified_at(g0, tiles, c),
    ensures
        forall|c: Position| #[trigger] bin(g1, c) && c != start ==> justified_at(g1, tiles, c),
{
    let q = spec_position_add(p, d.spec_offset());
    lemma_step_moves(p, d);
    assert forall|c: Position| #[trigger] bin(g1, c) && c != start implies justified_at(g1, tiles, c) by {
        if bcell(g1, c) > 0 {
            if c == q {
                lemma_move_and_back(p, d);
                let e = d.spec_opposite();
                assert(spec_position_add(c, e.spec_offset()) == p);
                assert(bin(g1, spec_position_add(c, e.spec_offset())));
                assert(bcell(g1, spec_position_add(c, e.spec_offset())) > bcell(g1, c));
            } else {
                assert(justified_at(g0, tiles, c));
                let e = choose|e: Direction| #[trigger] bin(g0, spec_position_add(c, e.spec_offset()))
                    && bcell(g0, spec_position_add(c, e.spec_offset())) > bcell(g0, c);
                let m = spec_position_add(c, e.spec_offset());
                assert(bin(g1, m));
                assert(bcell(g1, m) >= bcell(g0, m));
            }
        }
    }
}

/// The invariant that a reach grid keeps while it is being filled.
#[verifier::opaque]
pub open spec fn reach_partial(g: grid::Grid<u8>, tiles: Tiles, start: Position, budget: u8) -> bool {
    &&& covers_map(g, tiles)
    &&& bin(g, start)
    &&& bcell(g, start) == budget
    &&& forall|q: Position| #[trigger] bin(g, q) ==> bcell(g, q) <= budget
    &&& forall|c: Position| #[trigger] bin(g, c) && c != start ==> justified_at(g, tiles, c)
}

/// No count went down, and the counts of at least `v` stayed as they were.
#[verifier::opaque]
pub open spec fn raised_below(g0: grid::Grid<u8>, g1: grid::Grid<u8>, v: u8) -> bool {
    &&& forall|q: Position| #[trigger] bin(g1, q) == bin(g0, q)
    &&& forall|q: Position| #[trigger] bin(g1, q) ==> bcell(g1, q) >= bcell(g0, q)
    &&& forall|q: Position| #[trigger] bin(g1, q) && bcell(g0, q) >= v ==> bcell(g1, q) == bcell(g0, q)
    &&& forall|q: Position| #[trigger] bin(g1, q) && bcell(g0, q) < v ==> bcell(g1, q) < v
}

proof fn lemma_raised_trans(g0: grid::Grid<u8>, g1: grid::Grid<u8>, g2: grid::Grid<u8>, v: u8)
    requires
        raised_below(g0, g1, v),
        raised_below(g1, g2, v),
    ensures
        raised_below(g0, g2, v),
{
    reveal(raised_below);
    assert forall|q: Position| #[trigger] bin(g2, q) implies bcell(g2, q) >= bcell(g0, q) by {
        assert(bin(g1, q));
    }
    assert forall|q: Position| #[trigger] bin(g2, q) && bcell(g0, q) >= v implies bcell(g2, q) == bcell(g0, q) by {
        assert(bin(g1, q));
    }
    assert forall|q: Position| #[trigger] bin(g2, q) && bcell(g0, q) < v implies bcell(g2, q) < v by {
        assert(bin(g1, q));
    }
}

proof fn lemma_closed_kept(g0: grid::Grid<u8>, g1: grid::Grid<u8>, tiles: Tiles, n: Position, v: u8)
    requires
        raised_below(g0, g1, v),
        bin(g0, n),
        bcell(g0, n) >= v,
        closed_at(g0, tiles, n),
    ensures
        closed_at(g1, tiles, n),
        bcell(g1, n) == bcell(g0, n),
{
    reveal(raised_below);
    assert(bin(g1, n));
    assert forall|d: Direction| #[trigger] bin(g1, spec_position_add(n, d.spec_offset()))
        && tiles.spec_get(spec_position_add(n, d.spec_offset())).spec_can_travel()
        implies bcell(g1, spec_position_add(n, d.spec_offset())) + 1 >= bcell(g1, n) by {
        assert(bin(g0, spec_position_add(n, d.spec_offset())));
    }
}

/// Cell `n` comes before `(x, y)` in row order.
pub open spec fn scanned(n: Position, x: usize, y: usize) -> bool {
    n.x < x || (n.x == x && n.y < y)
}

/// Lowers the neighbour of `p` towards `dir` to one less than `p`'s count, when
/// it can be travelled and had less.
fn relax_one(g: &mut grid::Grid<u8>, tiles: &Tiles, p: Position, v: u8, dir: Direction, Ghost(start): Ghost<Position>, Ghost(budget): Ghost<u8>)
    requires
        1 <= v <= budget,
        reach_partial(*old(g), *tiles, start, budget),
        bin(*old(g), p),
        bcell(*old(g), p) == v,
    ensures
        reach_partial(*final(g), *tiles, start, budget),
        raised_below(*old(g), *final(g), v),
        bin(*final(g), spec_position_add(p, dir.spec_offset()))
            && tiles.spec_get(spec_position_add(p, dir.spec_offset())).spec_can_travel()
            ==> bcell(*final(g), spec_position_add(p, dir.spec_offset())) + 1 >= v,
{
    proof {
        reveal(reach_partial);
        reveal(raised_below);
    }
    let next_value = v - 1;
    let next_pos = p.move_once(dir);
    match count_grid_get(g, next_pos.x, next_pos.y) {
        Some(current) => {
            let tile = tiles.get(next_pos);
            if tile.can_travel() && next_value > current {
                let ghost g0 = *g;
                proof {
                    lemma_step_moves(p, dir);
                }
                count_grid_set(g, next_pos.x, next_pos.y, next_value);
                proof {
                    assert forall|r: Position| #[trigger] bin(*g, r) == bin(g0, r) by {}
                    assert forall|r: Position| #[trigger] bin(g0, r) && r != next_pos implies bcell(*g, r) == bcell(g0, r) by {
                        assert(bin(*g, r));
                    }
                    assert(bin(*g, next_pos));
                    lemma_raise_keeps_justified(g0, *g, *tiles, start, p, dir, v);
                    assert forall|q: Position| #[trigger] bin(*g, q) implies bcell(*g, q) <= budget by {
                        assert(bin(g0, q));
                    }
                    assert forall|q: Position| #[trigger] bin(*g, q) implies tiles.spec_in(q) by {
                        assert(bin(g0, q));
                    }
                }
            }
        },
        None => {},
    }
}

/// Lowers the neighbours of `p` that can be travelled to one less than `p`'s
/// count, where they had less.
fn relax_from(g: &mut grid::Grid<u8>, tiles: &Tiles, p: Position, v: u8, Ghost(start): Ghost<Position>, Ghost(budget): Ghost<u8>)
    requires
        1 <= v <= budget,
        reach_partial(*old(g), *tiles, start, budget),
        bin(*old(g), p),
        bcell(*old(g), p) == v,
    ensures
        reach_partial(*final(g), *tiles, start, budget),
        raised_below(*old(g), *final(g), v),
        closed_at(*final(g), *tiles, p),
{
    proof {
        reveal(raised_below);
    }
    let mut i: usize = 0;
    while i < 8
        invariant
            i <= 8,
            1 <= v <= budget,
            reach_partial(*g, *tiles, start, budget),
            raised_below(*old(g), *g, v),
            bin(*g, p),
            bcell(*g, p) == v,
            forall|j: int| 0 <= j < i ==> #[trigger] bin(*g, spec_position_add(p, dirs8()[j].spec_offset()))
                && tiles.spec_get(spec_position_add(p, dirs8()[j].spec_offset())).spec_can_travel()
                ==> bcell(*g, spec_position_add(p, dirs8()[j].spec_offset())) + 1 >= v,
        decreases 8 - i,
    {
        let dir = dir_at(i);
        let ghost g0 = *g;
        relax_one(g, tiles, p, v, dir, Ghost(start), Ghost(budget));
        proof {
            lemma_raised_trans(*old(g), g0, *g, v);
            reveal(raised_below);
            assert forall|j: int| 0 <= j < i + 1 implies #[trigger] bin(*g, spec_position_add(p, dirs8()[j].spec_offset()))
                && tiles.spec_get(spec_position_add(p, dirs8()[j].spec_offset())).spec_can_travel()
                ==> bcell(*g, spec_position_add(p, dirs8()[j].spec_offset())) + 1 >= v by {
                let r = spec_position_add(p, dirs8()[j].spec_offset());
                if bin(*g, r) {
                    assert(bin(g0, r));
                }
            }
            assert(bin(g0, p));
            assert(bin(*g, p));
            assert(bcell(*g, p) == bcell(g0, p));
        }
        i = i + 1;
    }
    proof {
        assert forall|d: Direction| #[trigger] bin(*g, spec_position_add(p, d.spec_offset()))
            && tiles.spec_get(spec_position_add(p, d.spec_offset())).spec_can_travel()
            implies bcell(*g, spec_position_add(p, d.spec_offset())) + 1 >= bcell(*g, p) by {
            lemma_dirs8_complete(d);
            let j = choose|j: int| 0 <= j < 8 && dirs8()[j] == d;
        }
    }
}

/// Every cell above level `v`, and every cell at level `v` scanned before
/// `(x, y)`, is closed.
#[verifier::opaque]
pub open spec fn closed_upto(g: grid::Grid<u8>, tiles: Tiles, v: u8, x: usize, y: usize) -> bool {
    forall|n: Position| #[trigger] bin(g, n) && (bcell(g, n) > v || (bcell(g, n) == v && scanned(n, x, y)))
        ==> closed_at(g, tiles, n)
}

proof fn lemma_scan_relaxed(g0: grid::Grid<u8>, g: grid::Grid<u8>, tiles: Tiles, v: u8, x: usize, y: usize)
    requires
        y < usize::MAX,
        closed_upto(g0, tiles, v, x, y),
        raised_below(g0, g, v),
        bin(g0, Position { x, y }),
        bcell(g0, Position { x, y }) == v,
        closed_at(g, tiles, Position { x, y }),
    ensures
        closed_upto(g, tiles, v, x, (y + 1) as usize),
{
    reveal(closed_upto);
    assert forall|n: Position| #[trigger] bin(g, n) && (bcell(g, n) > v || (bcell(g, n) == v && scanned(n, x, (y + 1) as usize)))
        implies closed_at(g, tiles, n) by {
        reveal(raised_below);
        assert(bin(g0, n));
        if n != (Position { x, y }) {
            lemma_closed_kept(g0, g, tiles, n, v);
        }
    }
}

proof fn lemma_scan_skip(g: grid::Grid<u8>, tiles: Tiles, v: u8, x: usize, y: usize)
    requires
        y < usize::MAX,
        closed_upto(g, tiles, v, x, y),
        bin(g, Position { x, y }) ==> bcell(g, Position { x, y }) != v,
    ensures
        closed_upto(g, tiles, v, x, (y + 1) as usize),
{
    reveal(closed_upto);
}

proof fn lemma_row_done(g: grid::Grid<u8>, tiles: Tiles, v: u8, x: usize, y: usize)
    requires
        x < usize::MAX,
        covers_map(g, tiles),
        y == tiles.spec_height(),
        closed_upto(g, tiles, v, x, y),
    ensures
        closed_upto(g, tiles, v, (x + 1) as usize, 0),
{
    reveal(closed_upto);
    assert forall|n: Position| #[trigger] bin(g, n) && (bcell(g, n) > v || (bcell(g, n) == v && scanned(n, (x + 1) as usize, 0)))
        implies closed_at(g, tiles, n) by {
        assert(tiles.spec_in(n));
        assert(scanned(n, x, y) || n.x < x || bcell(g, n) > v);
    }
}

proof fn lemma_level_done(g: grid::Grid<u8>, tiles: Tiles, v: u8, x: usize)
    requires
        v >= 1,
        covers_map(g, tiles),
        x == tiles.spec_width(),
        closed_upto(g, tiles, v, x, 0),
    ensures
        closed_upto(g, tiles, (v - 1) as u8, 0, 0),
{
    reveal(closed_upto);
    assert forall|n: Position| #[trigger] bin(g, n) && (bcell(g, n) > v - 1 || (bcell(g, n) == v - 1 && scanned(n, 0, 0)))
        implies closed_at(g, tiles, n) by {
        assert(tiles.spec_in(n));
        assert(scanned(n, x, 0) || bcell(g, n) > v);
    }
}

/// The reach grid of `start` with `budget` turns, filled level by level from
/// the budget down.
pub fn reach_grid(tiles: &Tiles, start: Position, budget: u8) -> (g: grid::Grid<u8>)
    requires
        tiles.spec_width() * tiles.spec_height() <= usize::MAX,
    ensures
        is_reach_grid(g, *tiles, start, budget),
{
    let w = tiles.width();
    let h = tiles.height();
    let mut g = count_grid_new(w, h);
    proof {
        assert forall|p: Position| #[trigger] bin(g, p) <==> tiles.spec_in(p) by {}
    }
    if start.x >= w || start.y >= h {
        proof {
            assert forall|p: Position| #[trigger] bin(g, p) implies bcell(g, p) == 0 by {}
        }
        return g;
    }
    let ghost g_init = g;
    count_grid_set(&mut g, start.x, start.y, budget);
    proof {
        reveal(reach_partial);
        reveal(closed_upto);
        assert forall|p: Position| #[trigger] bin(g, p) <==> tiles.spec_in(p) by {
            assert(bin(g, p) == bin(g_init, p));
        }
        assert(bin(g, start));
        assert forall|q: Position| #[trigger] bin(g, q) implies bcell(g, q) <= budget by {
            assert(bin(g_init, q));
        }
        assert forall|c: Position| #[trigger] bin(g, c) && c != start implies justified_at(g, *tiles, c) by {
            assert(bin(g_init, c));
        }
        assert forall|n: Position| #[trigger] bin(g, n) && (bcell(g, n) > budget || (bcell(g, n) == budget && scanned(n, 0, 0)))
            implies closed_at(g, *tiles, n) by {
        }
    }
    let mut v = budget;
    while v > 0
        invariant
            v <= budget,
            w == tiles.spec_width(),
            h == tiles.spec_height(),
            reach_partial(g, *tiles, start, budget),
            closed_upto(g, *tiles, v, 0, 0),
        decreases v,
    {
        let mut x: usize = 0;
        while x < w
            invariant
                1 <= v <= budget,
                x <= w,
                w == tiles.spec_width(),
                h == tiles.spec_height(),
                reach_partial(g, *tiles, start, budget),
                closed_upto(g, *tiles, v, x, 0),
            decreases w - x,
        {
            let mut y: usize = 0;
            while y < h
                invariant
                    1 <= v <= budget,
                    x < w,
                    y <= h,
                    w == tiles.spec_width(),
                    h == tiles.spec_height(),
                    reach_partial(g, *tiles, start, budget),
                    closed_upto(g, *tiles, v, x, y),
                decreases h - y,
            {
                let c = match count_grid_get(&g, x, y) {
                    Some(c) => c,
                    None => 0,
                };
                let p = Position { x, y };
                proof {
                    reveal(reach_partial);
                    assert(tiles.spec_in(p));
                    assert(bin(g, p));
                }
                if c == v {
                    let ghost g0 = g;
                    relax_from(&mut g, tiles, p, v, Ghost(start), Ghost(budget));
                    proof {
                        lemma_scan_relaxed(g0, g, *tiles, v, x, y);
                    }
                } else {
                    proof {
                        lemma_scan_skip(g, *tiles, v, x, y);
                    }
                }
                y = y + 1;
            }
            proof {
                reveal(reach_partial);
                lemma_row_done(g, *tiles, v, x, y);
            }
            x = x + 1;
        }
        proof {
            reveal(reach_partial);
            lemma_level_done(g, *tiles, v, x);
        }
        v = v - 1;
    }
    proof {
        reveal(reach_partial);
        reveal(closed_upto);
        assert forall|n: Position| #[trigger] bin(g, n) && bcell(g, n) > 0 implies closed_at(g, *tiles, n) by {}
    }
    g
}

/// `k` is the key, among the bounds on foe `foe_index` witnessed at or after
/// `turn`, of the smallest witness.
pub open spec fn is_first_live_bound(
    bounds: Map<(usize, PlayerId), PositionBound>,
    foe_index: usize,
    turn: u64,
    k: (usize, PlayerId),
) -> bool {
    &&& bounds.contains_key(k)
    &&& k.0 == foe_index
    &&& bounds[k].turn >= turn
    &&& forall|q: (usize, PlayerId)| #[trigger] bounds.contains_key(q) && q.0 == foe_index && bounds[q].turn >= turn
        ==> k.1 <= q.1
}

/// The position bound that steers foe `foe_index` at `turn`: the first, in key
/// order, of those witnessed at or after that turn.
pub open spec fn spec_live_bound(bounds: Map<(usize, PlayerId), PositionBound>, foe_index: usize, turn: u64) -> Option<PositionBound> {
    if exists|k: (usize, PlayerId)| is_first_live_bound(bounds, foe_index, turn, k) {
        Some(bounds[choose|k: (usize, PlayerId)| is_first_live_bound(bounds, foe_index, turn, k)])
    } else {
        None
    }
}

fn live_bound(bounds: &BTreeMap<(usize, PlayerId), PositionBound>, foe_index: usize, turn: u64) -> (r: Option<PositionBound>)
    ensures
        r == spec_live_bound(bounds@, foe_index, turn),
{
    let keys = map_keys(bounds);
    let n = keys.len();
    let mut best: Option<((usize, PlayerId), PositionBound)> = None;
    let mut i: usize = 0;
    while i < n
        invariant
            n == keys@.len(),
            i <= n,
            keys@.to_set() == bounds@.dom(),
            match best {
                None => forall|j: int| 0 <= j < i ==> !(#[trigger] keys@[j].0 == foe_index && bounds@[keys@[j]].turn >= turn),
                Some((k, b)) => {
                    &&& bounds@.contains_key(k)
                    &&& b == bounds@[k]
                    &&& k.0 == foe_index
                    &&& b.turn >= turn
                    &&& forall|j: int| 0 <= j < i && #[trigger] keys@[j].0 == foe_index && bounds@[keys@[j]].turn >= turn
                        ==> k.1 <= keys@[j].1
                },
            },
        decreases n - i,
    {
        let k = keys[i];
        proof {
            assert(keys@.to_set().contains(k));
        }
        match bounds.get(&k) {
            Some(b) => {
                if k.0 == foe_index && b.turn >= turn {
                    let better = match best {
                        None => true,
                        Some((bk, _)) => k.1 < bk.1,
                    };
                    if better {
                        best = Some((k, *b));
                    }
                }
            },
            None => {},
        }
        i = i + 1;
    }
    match best {
        None => {
            proof {
                assert forall|k: (usize, PlayerId)| !is_first_live_bound(bounds@, foe_index, turn, k) by {
                    if bounds@.contains_key(k) {
                        assert(keys@.to_set().contains(k));
                        let j = choose|j: int| 0 <= j < keys@.len() && keys@[j] == k;
                        assert(!(keys@[j].0 == foe_index && bounds@[keys@[j]].turn >= turn));
                    }
                }
            }
            None
        },
        Some((k, b)) => {
            proof {
                assert forall|q: (usize, PlayerId)| #[trigger] bounds@.contains_key(q) && q.0 == foe_index && bounds@[q].turn >= turn
                    implies k.1 <= q.1 by {
                    assert(keys@.to_set().contains(q));
                    let j = choose|j: int| 0 <= j < keys@.len() && keys@[j] == q;
                    assert(keys@[j].0 == foe_index && bounds@[keys@[j]].turn >= turn);
                }
                assert(is_first_live_bound(bounds@, foe_index, turn, k));
                let c = choose|c: (usize, PlayerId)| is_first_live_bound(bounds@, foe_index, turn, c);
                assert(c.1 <= k.1 && k.1 <= c.1);
                assert(c == k);
            }
            Some(b)
        },
    }
}

/// The number of turns a foe has to reach a position witnessed `later` turns
/// ahead, counting the current one, as a byte.
pub open spec fn spec_budget(bound_turn: u64, turn: u64) -> u8 {
    ((bound_turn - turn + 1) % 256) as u8
}

fn budget(bound_turn: u64, turn: u64) -> (r: u8)
    requires
        bound_turn >= turn,
    ensures
        r == spec_budget(bound_turn, turn),
{
    let d = (bound_turn - turn) % 256;
    if d == 255 {
        0
    } else {
        (d + 1) as u8
    }
}

/// The positions the foe may take so as to be where a player saw it: the reach
/// grid of the bound that steers it, if any.
pub fn compute_position_bounds(foe_index: usize, stage: &Stage, state: &StageState) -> (r: Option<grid::Grid<u8>>)
    requires
        stage.template.tiles.spec_width() * stage.template.tiles.spec_height() <= usize::MAX,
    ensures
        match spec_live_bound(stage.bounds.position_bounds@, foe_index, state.turn) {
            None => r is None,
            Some(b) => r matches Some(g) && is_reach_grid(g, stage.template.tiles, b.value, spec_budget(b.turn, state.turn)),
        },
{
    match live_bound(&stage.bounds.position_bounds, foe_index, state.turn) {
        None => None,
        Some(bound) => {
            let turn_diff = budget(bound.turn, state.turn);
            Some(reach_grid(&stage.template.tiles, bound.value, turn_diff))
        },
    }
}

/// The action leads to a tile the foe can still reach in time.
pub open spec fn within_bounds(g: grid::Grid<u8>, foe: Foe, a: FoeAction) -> bool {
    let p = a.spec_next_position(foe);
    bin(g, p) && bcell(g, p) > 0
}

/// The first `k` actions that keep the foe within the bounds.
pub open spec fn spec_kept_actions(actions: Seq<FoeAction>, g: grid::Grid<u8>, foe: Foe, k: nat) -> Seq<FoeAction>
    decreases k,
{
    if k == 0 {
        Seq::empty()
    } else {
        let prev = spec_kept_actions(actions, g, foe, (k - 1) as nat);
        if within_bounds(g, foe, actions[k - 1]) {
            prev.push(actions[k - 1])
        } else {
            prev
        }
    }
}

/// The actions that keep the foe within the bounds, or all of them when none does.
pub open spec fn spec_filter_by_bounds(actions: Seq<FoeAction>, g: grid::Grid<u8>, foe: Foe) -> Seq<FoeAction> {
    let kept = spec_kept_actions(actions, g, foe, actions.len());
    if kept.len() == 0 {
        actions
    } else {
        kept
    }
}

/// Filter actions respecting the bounds, in their order.
pub fn filter_actions_by_bounds(foe: &Foe, actions: Vec<FoeAction>, position_bounds: &grid::Grid<u8>) -> (r: Vec<FoeAction>)
    ensures
        r@ == spec_filter_by_bounds(actions@, *position_bounds, *foe),
{
    let mut filtered: Vec<FoeAction> = Vec::new();
    let n = actions.len();
    let mut i: usize = 0;
    while i < n
        invariant
            n == actions@.len(),
            i <= n,
            filtered@ == spec_kept_actions(actions@, *position_bounds, *foe, i as nat),
        decreases n - i,
    {
        let a = actions[i];
        let p = a.next_position(foe);
        let value = match count_grid_get(position_bounds, p.x, p.y) {
            Some(v) => v,
            None => 0,
        };
        if value > 0 {
            filtered.push(a);
        }
        i = i + 1;
    }
    if filtered.len() == 0 {
        actions
    } else {
        filtered
    }
}

/// The avatars close enough for the foe to notice.
pub open spec fn spec_visible_set(avatars: Map<PlayerId, Avatar>, pos: Position) -> Set<PlayerId> {
    Set::new(|p: PlayerId| avatars.contains_key(p) && spec_dist(avatars[p].position, pos) < 5)
}

/// Find the avatars within four tiles, by increasing player id.
pub fn find_visible_avatars(foe: &Foe, state: &StageState) -> (r: Vec<AvatarId>)
    ensures
        increasing_u32(r@),
        r@.to_set() == spec_visible_set(state.avatars@, foe.spec_position()),
{
    let keys = player_keys(&state.avatars);
    let pos = foe.position();
    let n = keys.len();
    let mut r: Vec<AvatarId> = Vec::new();
    let mut i: usize = 0;
    while i < n
        invariant
            n == keys@.len(),
            i <= n,
            pos == foe.spec_position(),
            keys@.to_set() == state.avatars@.dom(),
            increasing_u32(keys@),
            increasing_u32(r@),
            forall|k: int| 0 <= k < r@.len() ==> exists|j: int| 0 <= j < i && keys@[j] == #[trigger] r@[k],
            forall|p: PlayerId| #[trigger] r@.contains(p) <==> (exists|j: int| 0 <= j < i && keys@[j] == p)
                && spec_visible_set(state.avatars@, pos).contains(p),
        decreases n - i,
    {
        let k = keys[i];
        proof {
            assert(keys@.to_set().contains(k));
        }
        let near = match state.avatars.get(&k) {
            Some(a) => a.position.dist(&pos) < 5,
            None => false,
        };
        let ghost r0 = r@;
        if near {
            proof {
                assert forall|m: int| 0 <= m < r@.len() implies r@[m] < k by {
                    let j = choose|j: int| 0 <= j < i && keys@[j] == r@[m];
                }
            }
            r.push(k);
        }
        proof {
            assert forall|m: int| 0 <= m < r@.len() implies exists|j: int| 0 <= j < i + 1 && keys@[j] == #[trigger] r@[m] by {
                if m < r0.len() {
                    assert(r@[m] == r0[m]);
                    let j = choose|j: int| 0 <= j < i && keys@[j] == r0[m];
                } else {
                    assert(keys@[i as int] == r@[m]);
                }
            }
            assert forall|p: PlayerId| #[trigger] r@.contains(p) <==> (exists|j: int| 0 <= j < i + 1 && keys@[j] == p)
                && spec_visible_set(state.avatars@, pos).contains(p) by {
                if r@.contains(p) {
                    let m = choose|m: int| 0 <= m < r@.len() && r@[m] == p;
                    if m < r0.len() {
                        assert(r0[m] == p);
                        assert(r0.contains(p));
                        let j = choose|j: int| 0 <= j < i && keys@[j] == p;
                        assert(keys@[j] == p);
                    } else {
                        assert(keys@[i as int] == p);
                    }
                }
                if (exists|j: int| 0 <= j < i + 1 && keys@[j] == p) && spec_visible_set(state.avatars@, pos).contains(p) {
                    let j = choose|j: int| 0 <= j < i + 1 && keys@[j] == p;
                    if j == i {
                        assert(r@[r@.len() - 1] == p);
                    } else {
                        assert(r0.contains(p));
                        let m = choose|m: int| 0 <= m < r0.len() && r0[m] == p;
                        assert(r@[m] == p);
                    }
                }
            }
        }
        i = i + 1;
    }
    proof {
        assert forall|p: PlayerId| #[trigger] r@.to_set().contains(p) <==> spec_visible_set(state.avatars@, pos).contains(p) by {
            if spec_visible_set(state.avatars@, pos).contains(p) {
                assert(keys@.to_set().contains(p));
            }
        }
        assert(r@.to_set() =~= spec_visible_set(state.avatars@, pos));
    }
    r
}

/// The first of the first `k` actions that attacks a visible avatar.
pub open spec fn spec_first_visible_attack(actions: Seq<FoeAction>, vis: Seq<PlayerId>, k: nat) -> Option<FoeAction>
    decreases k,
{
    if k == 0 {
        None
    } else {
        match spec_first_visible_attack(actions, vis, (k - 1) as nat) {
            Some(a) => Some(a),
            None => match actions[k - 1] {
                FoeAction::Attack(t) => if vis.contains(t) {
                    Some(actions[k - 1])
                } else {
                    None
                },
                _ => None,
            },
        }
    }
}

/// Among the first `k` ids of `vis` that have an avatar, the first one
/// nearest to `pos`.
pub open spec fn spec_nearest_upto(avatars: Map<PlayerId, Avatar>, vis: Seq<PlayerId>, pos: Position, k: nat) -> Option<PlayerId>
    decreases k,
{
    if k == 0 {
        None
    } else {
        let prev = spec_nearest_upto(avatars, vis, pos, (k - 1) as nat);
        let q = vis[k - 1];
        if !avatars.contains_key(q) {
            prev
        } else {
            match prev {
                None => Some(q),
                Some(p) => if spec_dist(pos, avatars[q].position) < spec_dist(pos, avatars[p].position) {
                    Some(q)
                } else {
                    prev
                },
            }
        }
    }
}

/// The visible avatar nearest to `pos`: the first, in the order of `vis`, of
/// those at the least distance.
pub open spec fn spec_nearest(avatars: Map<PlayerId, Avatar>, vis: Seq<PlayerId>, pos: Position) -> Option<PlayerId> {
    spec_nearest_upto(avatars, vis, pos, vis.len())
}

/// How far, counted along the axes, the action leaves the foe from the visible
/// avatar nearest to where it leads.
pub open spec fn spec_gap(avatars: Map<PlayerId, Avatar>, vis: Seq<PlayerId>, foe: Foe, a: FoeAction) -> Option<int> {
    let pos = a.spec_next_position(foe);
    match spec_nearest(avatars, vis, pos) {
        Some(p) => Some(spec_dist_manhattan(avatars[p].position, pos)),
        None => None,
    }
}

/// Among the first `k` actions, the first that leaves the smallest gap, with that gap.
pub open spec fn spec_closest_move(
    actions: Seq<FoeAction>,
    avatars: Map<PlayerId, Avatar>,
    vis: Seq<PlayerId>,
    foe: Foe,
    k: nat,
) -> Option<(FoeAction, int)>
    decreases k,
{
    if k == 0 {
        None
    } else {
        let prev = spec_closest_move(actions, avatars, vis, foe, (k - 1) as nat);
        match spec_gap(avatars, vis, foe, actions[k - 1]) {
            None => prev,
            Some(d) => match prev {
                None => Some((actions[k - 1], d)),
                Some((_, bd)) => if d < bd {
                    Some((actions[k - 1], d))
                } else {
                    prev
                },
            },
        }
    }
}

/// Among the first `k` actions, the last one whose next position holds the
/// greatest count of `g`.
pub open spec fn spec_bound_best(actions: Seq<FoeAction>, g: grid::Grid<u8>, foe: Foe, k: nat) -> Option<FoeAction>
    decreases k,
{
    if k == 0 {
        None
    } else {
        let prev = spec_bound_best(actions, g, foe, (k - 1) as nat);
        let a = actions[k - 1];
        match prev {
            None => Some(a),
            Some(b) => if bcell(g, a.spec_next_position(foe)) >= bcell(g, b.spec_next_position(foe)) {
                Some(a)
            } else {
                prev
            },
        }
    }
}

/// Every action leads to a cell of the grid.
pub open spec fn all_in_grid(actions: Seq<FoeAction>, g: grid::Grid<u8>, foe: Foe) -> bool {
    forall|j: int| 0 <= j < actions.len() ==> bin(g, #[trigger] actions[j].spec_next_position(foe))
}

/// The action chosen: attack a visible avatar; else close in on the visible
/// avatars; else, under a bound, the action that leads furthest inside it (the
/// last of them on a tie); else wait.
pub open spec fn spec_select(
    actions: Seq<FoeAction>,
    vis: Seq<PlayerId>,
    foe: Foe,
    avatars: Map<PlayerId, Avatar>,
    bound: Option<grid::Grid<u8>>,
) -> FoeAction {
    match spec_first_visible_attack(actions, vis, actions.len()) {
        Some(a) => a,
        None => match spec_closest_move(actions, avatars, vis, foe, actions.len()) {
            Some((a, _)) => a,
            None => match bound {
                Some(g) => match spec_bound_best(actions, g, foe, actions.len()) {
                    Some(a) => a,
                    None => FoeAction::Wait,
                },
                None => FoeAction::Wait,
            },
        },
    }
}

/// The ranking by the bound reads only cells of its grid: when the first two
/// choices give nothing, every action leads inside the grid.
pub open spec fn bound_readable(
    actions: Seq<FoeAction>,
    vis: Seq<PlayerId>,
    foe: Foe,
    avatars: Map<PlayerId, Avatar>,
    bound: Option<grid::Grid<u8>>,
) -> bool {
    match bound {
        Some(g) => spec_first_visible_attack(actions, vis, actions.len()) is None
            && spec_closest_move(actions, avatars, vis, foe, actions.len()) is None
            ==> all_in_grid(actions, g, foe),
        None => true,
    }
}

proof fn lemma_first_attack_stable(actions: Seq<FoeAction>, vis: Seq<PlayerId>, a: nat, b: nat)
    requires
        a <= b,
        spec_first_visible_attack(actions, vis, a) is Some,
    ensures
        spec_first_visible_attack(actions, vis, b) == spec_first_visible_attack(actions, vis, a),
    decreases b - a,
{
    if a < b {
        lemma_first_attack_stable(actions, vis, a, (b - 1) as nat);
    }
}

fn ids_contain(ids: &Vec<AvatarId>, id: AvatarId) -> (r: bool)
    ensures
        r == ids@.contains(id),
{
    let n = ids.len();
    let mut i: usize = 0;
    while i < n
        invariant
            n == ids@.len(),
            i <= n,
            forall|j: int| 0 <= j < i ==> ids@[j] != id,
        decreases n - i,
    {
        if ids[i] == id {
            return true;
        }
        i = i + 1;
    }
    false
}

/// The position of the visible avatar nearest to `pos`.
fn nearest_avatar(visible: &Vec<AvatarId>, avatars: &BTreeMap<PlayerId, Avatar>, pos: Position) -> (r: Option<Position>)
    ensures
        match spec_nearest(avatars@, visible@, pos) {
            Some(p) => r == Some(avatars@[p].position),
            None => r is None,
        },
{
    let n = visible.len();
    let mut best: Option<(AvatarId, Position, usize)> = None;
    let mut i: usize = 0;
    while i < n
        invariant
            n == visible@.len(),
            i <= n,
            match best {
                None => spec_nearest_upto(avatars@, visible@, pos, i as nat) is None,
                Some((p, pp, d)) => {
                    &&& spec_nearest_upto(avatars@, visible@, pos, i as nat) == Some(p)
                    &&& avatars@.contains_key(p)
                    &&& pp == avatars@[p].position
                    &&& d == spec_dist(pos, pp)
                },
            },
        decreases n - i,
    {
        let q = visible[i];
        match avatars.get(&q) {
            Some(a) => {
                let dq = pos.dist(&a.position);
                let better = match best {
                    None => true,
                    Some((_, _, d)) => dq < d,
                };
                if better {
                    best = Some((q, a.position, dq));
                }
            },
            None => {},
        }
        i = i + 1;
    }
    match best {
        None => None,
        Some((_, pp, _)) => Some(pp),
    }
}

/// The distance along the axes, without overflow.
fn gap(a: Position, b: Position) -> (r: u128)
    ensures
        r == spec_dist_manhattan(a, b),
{
    let dx: usize = if a.x >= b.x { a.x - b.x } else { b.x - a.x };
    let dy: usize = if a.y >= b.y { a.y - b.y } else { b.y - a.y };
    dx as u128 + dy as u128
}

pub open spec fn lift_choice(o: Option<(FoeAction, u128)>) -> Option<(FoeAction, int)> {
    match o {
        Some((a, d)) => Some((a, d as int)),
        None => None,
    }
}

/// Select the best action, prioritizing: attacking > moving toward enemy >
/// respecting the position bound > waiting.
pub fn select_best_action(
    actions: &Vec<FoeAction>,
    visible_avatars: &Vec<AvatarId>,
    foe: &Foe,
    state: &StageState,
    position_bound: Option<grid::Grid<u8>>,
) -> (r: FoeAction)
    requires
        bound_readable(actions@, visible_avatars@, *foe, state.avatars@, position_bound),
    ensures
        r == spec_select(actions@, visible_avatars@, *foe, state.avatars@, position_bound),
        r == FoeAction::Wait || actions@.contains(r),
{
    let ghost vis = visible_avatars@;
    let n = actions.len();
    // Priority one: attack visible avatar
    let mut i: usize = 0;
    while i < n
        invariant
            n == actions@.len(),
            i <= n,
            vis == visible_avatars@,
            spec_first_visible_attack(actions@, vis, i as nat) is None,
        decreases n - i,
    {
        let action = actions[i];
        if let FoeAction::Attack(target_id) = action {
            if ids_contain(visible_avatars, target_id) {
                proof {
                    assert(spec_first_visible_attack(actions@, vis, (i + 1) as nat) == Some(action));
                    lemma_first_attack_stable(actions@, vis, (i + 1) as nat, n as nat);
                    assert(actions@[i as int] == action);
                }
                return action;
            }
        }
        i = i + 1;
    }
    // Priority two: move toward nearest visible avatar
    let mut best_action: Option<(FoeAction, u128)> = None;
    let mut i: usize = 0;
    while i < n
        invariant
            n == actions@.len(),
            i <= n,
            vis == visible_avatars@,
            lift_choice(best_action) == spec_closest_move(actions@, state.avatars@, vis, *foe, i as nat),
            best_action matches Some((a, _)) ==> actions@.contains(a),
        decreases n - i,
    {
        let action = actions[i];
        let next_pos = action.next_position(foe);
        if let Some(apos) = nearest_avatar(visible_avatars, &state.avatars, next_pos) {
            let dist = gap(apos, next_pos);
            match best_action {
                None => best_action = Some((action, dist)),
                Some((_, best_dist)) => {
                    if dist < best_dist {
                        best_action = Some((action, dist));
                    }
                },
            }
        }
        proof {
            assert(actions@[i as int] == action);
        }
        i = i + 1;
    }
    if let Some((action, _)) = best_action {
        return action;
    }
    // Priority three: move toward the position bound
    match position_bound {
        None => FoeAction::Wait,
        Some(bound) => {
            let mut best: Option<(FoeAction, u8)> = None;
            let mut i: usize = 0;
            while i < n
                invariant
                    n == actions@.len(),
                    i <= n,
                    all_in_grid(actions@, bound, *foe),
                    match best {
                        None => i == 0,
                        Some((a, v)) => spec_bound_best(actions@, bound, *foe, i as nat) == Some(a)
                            && v == bcell(bound, a.spec_next_position(*foe)) && actions@.contains(a),
                    },
                decreases n - i,
            {
                let action = actions[i];
                let p = action.next_position(foe);
                proof {
                    assert(bin(bound, actions@[i as int].spec_next_position(*foe)));
                }
                let value = match count_grid_get(&bound, p.x, p.y) {
                    Some(v) => v,
                    None => 0,
                };
                match best {
                    None => best = Some((action, value)),
                    Some((_, best_value)) => {
                        if value >= best_value {
                            best = Some((action, value));
                        }
                    },
                }
                proof {
                    assert(actions@[i as int] == action);
                }
                i = i + 1;
            }
            match best {
                Some((action, _)) => action,
                None => FoeAction::Wait,
            }
        },
    }
}

/// Whether every action leads to a cell of the grid.
fn leads_inside(actions: &Vec<FoeAction>, foe: &Foe, g: &grid::Grid<u8>) -> (r: bool)
    ensures
        r == all_in_grid(actions@, *g, *foe),
{
    let n = actions.len();
    let mut i: usize = 0;
    while i < n
        invariant
            n == actions@.len(),
            i <= n,
            forall|j: int| 0 <= j < i ==> bin(*g, #[trigger] actions@[j].spec_next_position(*foe)),
        decreases n - i,
    {
        let p = actions[i].next_position(foe);
        if count_grid_get(g, p.x, p.y).is_none() {
            return false;
        }
        i = i + 1;
    }
    true
}

/// The bound that ranks the actions: its grid, when every action leads inside it.
pub open spec fn ranked_by(actions: Seq<FoeAction>, g: grid::Grid<u8>, foe: Foe) -> Option<grid::Grid<u8>> {
    if all_in_grid(actions, g, foe) {
        Some(g)
    } else {
        None
    }
}

/// `vis` lists the avatars noticed from `pos`, in the order of their ids, as
/// the stage keeps its avatars.
pub open spec fn visible_in_order(vis: Seq<PlayerId>, avatars: Map<PlayerId, Avatar>, pos: Position) -> bool {
    increasing_u32(vis) && vis.to_set() == spec_visible_set(avatars, pos)
}

/// What the foe at `foe_index` decides: its only option when it has one;
/// otherwise the best among the options that keep it where players saw it (all
/// of them when none does).
pub open spec fn is_foe_choice(
    foe: Foe,
    foe_index: usize,
    tiles: Tiles,
    pbounds: Map<(usize, PlayerId), PositionBound>,
    turn: u64,
    avatars: Map<PlayerId, Avatar>,
    foes: Seq<Foe>,
    a: FoeAction,
) -> bool {
    let actions = spec_possible_actions(foe, tiles, avatars, foes);
    if actions.len() == 1 {
        a == actions[0]
    } else {
        exists|vis: Seq<PlayerId>| #[trigger] visible_in_order(vis, avatars, foe.spec_position())
            && match spec_live_bound(pbounds, foe_index, turn) {
            None => a == spec_select(actions, vis, foe, avatars, None),
            Some(b) => exists|g: grid::Grid<u8>| #[trigger] is_reach_grid(g, tiles, b.value, spec_budget(b.turn, turn))
                && a == spec_select(spec_filter_by_bounds(actions, g, foe), vis, foe, avatars, ranked_by(spec_filter_by_bounds(actions, g, foe), g, foe)),
        }
    }
}

/// The decision of a foe: its only option when it has one; otherwise, among
/// the options that keep it within the bound that steers it (all of them when
/// none does), an attack on an avatar it notices, else the move that closes in
/// on the noticed avatars, else the move that leads furthest inside the bound.
/// The bound ranks the options only when its grid holds a count for each of
/// them: an option that leads off the map has none to compare.
pub fn foe_ai(foe_index: usize, foe: &Foe, stage: &Stage, state: &StageState) -> (r: FoeAction)
    requires
        stage.template.tiles.spec_width() * stage.template.tiles.spec_height() <= usize::MAX,
    ensures
        is_foe_choice(*foe, foe_index, stage.template.tiles, stage.bounds.position_bounds@, state.turn,
            state.avatars@, state.foes@, r),
{
    // 1. List all possible actions
    let actions = compute_possible_actions(foe, stage, state);
    if actions.len() == 1 {
        return actions[0];
    }
    let position_bound = compute_position_bounds(foe_index, stage, state);
    let (actions, position_bound) = match position_bound {
        None => (actions, None),
        Some(bound) => {
            let kept = filter_actions_by_bounds(foe, actions, &bound);
            // The bound ranks the actions only where it holds a cell for each.
            if leads_inside(&kept, foe, &bound) {
                (kept, Some(bound))
            } else {
                (kept, None)
            }
        },
    };
    let visible_avatars = find_visible_avatars(foe, state);
    proof {
        assert(visible_in_order(visible_avatars@, state.avatars@, foe.spec_position()));
    }
    select_best_action(&actions, &visible_avatars, foe, state, position_bound)
}

/// The avatars after `aid` took a foe's attack: its health goes down by the
/// attack, to no less than zero.
pub open spec fn spec_hit_avatar(avatars: Map<PlayerId, Avatar>, aid: PlayerId, attack: u8) -> Map<PlayerId, Avatar> {
    if avatars.contains_key(aid) {
        let a = avatars[aid];
        avatars.insert(aid, Avatar { hp: if a.hp >= attack { (a.hp - attack) as u8 } else { 0 }, ..a })
    } else {
        avatars
    }
}

/// The turn of the foe at `foe_index`: a dead foe does nothing; a living one
/// attacks, moves or waits as it decides. Gives back what it did.
pub fn act(foe_index: usize, stage: &Stage, state: &mut StageState) -> (r: Option<FoeAction>)
    requires
        foe_index < old(state).foes@.len(),
        stage.template.tiles.spec_width() * stage.template.tiles.spec_height() <= usize::MAX,
    ensures
        final(state).turn == old(state).turn,
        final(state).orb == old(state).orb,
        final(state).events@ == old(state).events@,
        final(state).foes@.len() == old(state).foes@.len(),
        r is None <==> !old(state).foes@[foe_index as int].spec_alive(),
        r matches Some(a) ==> legal_move(a, old(state).foes@[foe_index as int].spec_position(), stage.template.tiles, old(state).foes@),
        match r {
            None => final(state).foes@ == old(state).foes@ && final(state).avatars@ == old(state).avatars@,
            Some(a) => {
                let foe = old(state).foes@[foe_index as int];
                &&& is_foe_choice(foe, foe_index, stage.template.tiles, stage.bounds.position_bounds@, old(state).turn,
                    old(state).avatars@, old(state).foes@, a)
                &&& final(state).avatars@ == match a {
                    FoeAction::Attack(aid) => spec_hit_avatar(old(state).avatars@, aid, foe.spec_attack()),
                    _ => old(state).avatars@,
                }
                &&& final(state).foes@ == match a {
                    FoeAction::Move(p) => old(state).foes@.update(foe_index as int, foe.spec_moved_to(p)),
                    _ => old(state).foes@,
                }
            },
        },
{
    let foe = state.foes[foe_index];
    if !foe.alive() {
        return None;
    }
    let action = foe_ai(foe_index, &foe, stage, state);
    proof {
        lemma_foe_choice_is_legal(foe, foe_index, stage.template.tiles, stage.bounds.position_bounds@, state.turn,
            state.avatars@, state.foes@, action);
    }
    match action {
        FoeAction::Attack(aid) => {
            if let Some(mut avatar) = state.avatars.remove(&aid) {
                avatar.hp = if avatar.hp >= foe.attack() { avatar.hp - foe.attack() } else { 0 };
                state.avatars.insert(aid, avatar);
            }
        },
        FoeAction::Wait => {},
        FoeAction::Move(position) => {
            let mut moved = foe;
            moved.move_to(position);
            state.foes.set(foe_index, moved);
        },
    }
    Some(action)
}

/// The avatars are the same but for their health, which did not go up.
pub open spec fn hp_lowered_only(before: Map<PlayerId, Avatar>, after: Map<PlayerId, Avatar>) -> bool {
    &&& after.dom() == before.dom()
    &&& forall|p: PlayerId| #[trigger] after.contains_key(p) ==> after[p].hp <= before[p].hp
        && after[p] == (Avatar { hp: after[p].hp, ..before[p] })
}

/// Steps that only lower the avatars' health, one after the other, only
/// lower it.
pub proof fn lemma_hp_lowered_trans(a: Map<PlayerId, Avatar>, b: Map<PlayerId, Avatar>, c: Map<PlayerId, Avatar>)
    requires
        hp_lowered_only(a, b),
        hp_lowered_only(b, c) || b == c || (exists|aid: PlayerId, attack: u8| c == #[trigger] spec_hit_avatar(b, aid, attack)),
    ensures
        hp_lowered_only(a, c),
{
    if exists|aid: PlayerId, attack: u8| c == #[trigger] spec_hit_avatar(b, aid, attack) {
        let (aid, attack) = choose|aid: PlayerId, attack: u8| c == #[trigger] spec_hit_avatar(b, aid, attack);
        if b.contains_key(aid) {
            assert(c.dom() =~= b.dom());
        }
    }
    assert forall|p: PlayerId| #[trigger] c.contains_key(p) implies c[p].hp <= a[p].hp
        && c[p] == (Avatar { hp: c[p].hp, ..a[p] }) by {
        assert(b.contains_key(p));
    }
}

proof fn lemma_kept_actions(actions: Seq<FoeAction>, g: grid::Grid<u8>, foe: Foe, k: nat)
    requires
        k <= actions.len(),
    ensures
        forall|j: int| 0 <= j < spec_kept_actions(actions, g, foe, k).len()
            ==> within_bounds(g, foe, #[trigger] spec_kept_actions(actions, g, foe, k)[j])
            && actions.subrange(0, k as int).contains(spec_kept_actions(actions, g, foe, k)[j]),
        spec_kept_actions(actions, g, foe, k).len() == 0
            <==> forall|j: int| 0 <= j < k ==> !within_bounds(g, foe, #[trigger] actions[j]),
    decreases k,
{
    if k > 0 {
        lemma_kept_actions(actions, g, foe, (k - 1) as nat);
        let prev = spec_kept_actions(actions, g, foe, (k - 1) as nat);
        let cur = spec_kept_actions(actions, g, foe, k);
        assert forall|j: int| 0 <= j < cur.len() implies within_bounds(g, foe, #[trigger] cur[j])
            && actions.subrange(0, k as int).contains(cur[j]) by {
            if j < prev.len() {
                assert(cur[j] == prev[j]);
                assert(actions.subrange(0, k - 1).contains(prev[j]));
                let m = choose|m: int| 0 <= m < k - 1 && #[trigger] actions.subrange(0, k - 1)[m] == prev[j];
                assert(actions.subrange(0, k as int)[m] == prev[j]);
            } else {
                assert(actions.subrange(0, k as int)[k - 1] == cur[j]);
            }
        }
        if cur.len() == 0 {
            assert forall|j: int| 0 <= j < k implies !within_bounds(g, foe, #[trigger] actions[j]) by {
                if j < k - 1 {
                } else {
                }
            }
        }
    }
}

/// Filtering by the bounds never leaves a foe without an action; when some
/// action keeps the foe where it was witnessed, every action left does.
pub proof fn lemma_filter_keeps_choice(actions: Seq<FoeAction>, g: grid::Grid<u8>, foe: Foe)
    requires
        actions.len() > 0,
    ensures
        spec_filter_by_bounds(actions, g, foe).len() > 0,
        forall|j: int| 0 <= j < spec_filter_by_bounds(actions, g, foe).len()
            ==> actions.contains(#[trigger] spec_filter_by_bounds(actions, g, foe)[j]),
        (exists|i: int| 0 <= i < actions.len() && within_bounds(g, foe, #[trigger] actions[i]))
            ==> forall|j: int| 0 <= j < spec_filter_by_bounds(actions, g, foe).len()
            ==> within_bounds(g, foe, #[trigger] spec_filter_by_bounds(actions, g, foe)[j]),
{
    lemma_kept_actions(actions, g, foe, actions.len());
    assert(actions.subrange(0, actions.len() as int) =~= actions);
    let r = spec_filter_by_bounds(actions, g, foe);
    assert forall|j: int| 0 <= j < r.len() implies actions.contains(#[trigger] r[j]) by {
        if spec_kept_actions(actions, g, foe, actions.len()).len() == 0 {
            assert(actions[j] == r[j]);
        }
    }
}

proof fn lemma_first_attack_found(actions: Seq<FoeAction>, vis: Seq<PlayerId>, k: nat)
    requires
        k <= actions.len(),
    ensures
        (exists|i: int| 0 <= i < k && (#[trigger] actions[i] matches FoeAction::Attack(t) && vis.contains(t)))
            ==> spec_first_visible_attack(actions, vis, k) is Some,
        spec_first_visible_attack(actions, vis, k) matches Some(a) ==> (a matches FoeAction::Attack(t) && vis.contains(t)),
    decreases k,
{
    if k > 0 {
        lemma_first_attack_found(actions, vis, (k - 1) as nat);
        if exists|i: int| 0 <= i < k && (#[trigger] actions[i] matches FoeAction::Attack(t) && vis.contains(t)) {
            let i = choose|i: int| 0 <= i < k && (#[trigger] actions[i] matches FoeAction::Attack(t) && vis.contains(t));
            if i < k - 1 {
                assert(exists|i: int| 0 <= i < k - 1 && (#[trigger] actions[i] matches FoeAction::Attack(t) && vis.contains(t)));
            }
        }
    }
}

proof fn lemma_first_attack_is_attack(actions: Seq<FoeAction>, vis: Seq<PlayerId>, k: nat)
    requires
        k <= actions.len(),
    ensures
        spec_first_visible_attack(actions, vis, k) matches Some(a) ==> a is Attack,
    decreases k,
{
    if k > 0 {
        lemma_first_attack_is_attack(actions, vis, (k - 1) as nat);
    }
}

proof fn lemma_closest_move_member(actions: Seq<FoeAction>, avatars: Map<PlayerId, Avatar>, vis: Seq<PlayerId>, foe: Foe, k: nat)
    requires
        k <= actions.len(),
    ensures
        spec_closest_move(actions, avatars, vis, foe, k) matches Some((a, _)) ==> exists|j: int| 0 <= j < k && actions[j] == a,
    decreases k,
{
    if k > 0 {
        lemma_closest_move_member(actions, avatars, vis, foe, (k - 1) as nat);
    }
}

proof fn lemma_bound_best_member(actions: Seq<FoeAction>, g: grid::Grid<u8>, foe: Foe, k: nat)
    requires
        k <= actions.len(),
    ensures
        spec_bound_best(actions, g, foe, k) matches Some(a) ==> exists|j: int| 0 <= j < k && actions[j] == a,
    decreases k,
{
    if k > 0 {
        lemma_bound_best_member(actions, g, foe, (k - 1) as nat);
    }
}

/// The chosen action is waiting, an attack, or one of the actions offered; so
/// when every move offered is legal, the chosen one is.
pub proof fn lemma_select_keeps_legal(
    actions: Seq<FoeAction>,
    vis: Seq<PlayerId>,
    foe: Foe,
    avatars: Map<PlayerId, Avatar>,
    bound: Option<grid::Grid<u8>>,
    tiles: Tiles,
    foes: Seq<Foe>,
)
    requires
        forall|j: int| 0 <= j < actions.len() ==> legal_move(#[trigger] actions[j], foe.spec_position(), tiles, foes),
    ensures
        legal_move(spec_select(actions, vis, foe, avatars, bound), foe.spec_position(), tiles, foes),
{
    lemma_first_attack_is_attack(actions, vis, actions.len());
    lemma_closest_move_member(actions, avatars, vis, foe, actions.len());
    match bound {
        Some(g) => lemma_bound_best_member(actions, g, foe, actions.len()),
        None => {},
    }
}

/// A foe never walks into a wall, a pylon or another foe: whatever it
/// decides, a move goes one step onto a free tile that can be travelled.
pub proof fn lemma_foe_choice_is_legal(
    foe: Foe,
    foe_index: usize,
    tiles: Tiles,
    pbounds: Map<(usize, PlayerId), PositionBound>,
    turn: u64,
    avatars: Map<PlayerId, Avatar>,
    foes: Seq<Foe>,
    a: FoeAction,
)
    requires
        is_foe_choice(foe, foe_index, tiles, pbounds, turn, avatars, foes, a),
    ensures
        legal_move(a, foe.spec_position(), tiles, foes),
{
    let actions = spec_possible_actions(foe, tiles, avatars, foes);
    lemma_foe_moves_are_legal(foe, tiles, avatars, foes);
    if actions.len() == 1 {
        assert(legal_move(actions[0], foe.spec_position(), tiles, foes));
    } else {
        let vis = choose|vis: Seq<PlayerId>| #[trigger] visible_in_order(vis, avatars, foe.spec_position())
            && match spec_live_bound(pbounds, foe_index, turn) {
            None => a == spec_select(actions, vis, foe, avatars, None),
            Some(b) => exists|g: grid::Grid<u8>| #[trigger] is_reach_grid(g, tiles, b.value, spec_budget(b.turn, turn))
                && a == spec_select(spec_filter_by_bounds(actions, g, foe), vis, foe, avatars, ranked_by(spec_filter_by_bounds(actions, g, foe), g, foe)),
        };
        match spec_live_bound(pbounds, foe_index, turn) {
            None => {
                lemma_select_keeps_legal(actions, vis, foe, avatars, None, tiles, foes);
            },
            Some(b) => {
                let g = choose|g: grid::Grid<u8>| #[trigger] is_reach_grid(g, tiles, b.value, spec_budget(b.turn, turn))
                    && a == spec_select(spec_filter_by_bounds(actions, g, foe), vis, foe, avatars, ranked_by(spec_filter_by_bounds(actions, g, foe), g, foe));
                let kept = spec_filter_by_bounds(actions, g, foe);
                if actions.len() > 0 {
                    lemma_filter_keeps_choice(actions, g, foe);
                } else {
                    assert(kept =~= actions);
                }
                assert forall|j: int| 0 <= j < kept.len() implies legal_move(#[trigger] kept[j], foe.spec_position(), tiles, foes) by {
                    assert(actions.contains(kept[j]));
                    let m = choose|m: int| 0 <= m < actions.len() && actions[m] == kept[j];
                    assert(legal_move(actions[m], foe.spec_position(), tiles, foes));
                }
                lemma_select_keeps_legal(kept, vis, foe, avatars, ranked_by(kept, g, foe), tiles, foes);
            },
        }
    }
}

/// A foe that can attack an avatar it notices attacks one.
pub proof fn lemma_attack_preferred(
    actions: Seq<FoeAction>,
    vis: Seq<PlayerId>,
    foe: Foe,
    avatars: Map<PlayerId, Avatar>,
    bound: Option<grid::Grid<u8>>,
    i: int,
)
    requires
        0 <= i < actions.len(),
        actions[i] matches FoeAction::Attack(t) && vis.contains(t),
    ensures
        spec_select(actions, vis, foe, avatars, bound) matches FoeAction::Attack(t) && vis.contains(t),
{
    lemma_first_attack_found(actions, vis, actions.len());
}

} // verus!
