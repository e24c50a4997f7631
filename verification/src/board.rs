//! The two dimensional grids of the `grid` crate, as the simulation uses them.
//!
//! A grid is seen through two names: its cells, row by row, and its number of
//! columns. Each method that the simulation calls has a small wrapper whose
//! contract states what the crate's source does on the cells.

use vstd::prelude::*;
use crate::types::Tile;


verus! {

#[verifier::external_type_specification]
#[verifier::external_body]
#[verifier::reject_recursive_types(T)]
pub struct ExGrid<T>(grid::Grid<T>);

/// The cells of a grid of tiles, one sequence per row.
pub uninterp spec fn tile_cells(g: grid::Grid<Tile>) -> Seq<Seq<Tile>>;

/// The number of columns of a grid of tiles.
pub uninterp spec fn tile_cols(g: grid::Grid<Tile>) -> nat;

/// The cell at `(row, col)` of a grid of tiles.
pub open spec fn tile_cell(g: grid::Grid<Tile>, row: int, col: int) -> Tile {
    tile_cells(g)[row][col]
}

/// Whether `(row, col)` lies inside a grid of tiles.
pub open spec fn tile_in(g: grid::Grid<Tile>, row: int, col: int) -> bool {
    0 <= row < tile_cells(g).len() && 0 <= col < tile_cols(g)
}

/// `grid::Grid::new(rows, cols)`: a grid of default tiles; an empty grid, with no
/// rows and no columns, when either dimension is zero.
#[verifier::external_body]
pub(crate) fn tile_grid_new(rows: usize, cols: usize) -> (g: grid::Grid<Tile>)
    requires
        rows * cols <= usize::MAX,
    ensures
        rows == 0 || cols == 0 ==> tile_cells(g).len() == 0 && tile_cols(g) == 0,
        rows > 0 && cols > 0 ==> {
            &&& tile_cells(g).len() == rows
            &&& tile_cols(g) == cols
            &&& forall|r: int, c: int| 0 <= r < rows && 0 <= c < cols ==> #[trigger] tile_cell(g, r, c) == Tile::Unknown
        },
{
    grid::Grid::new(rows, cols)
}

/// `Grid::rows`: the number of rows.
#[verifier::external_body]
pub(crate) fn tile_grid_rows(g: &grid::Grid<Tile>) -> (n: usize)
    ensures
        n == tile_cells(*g).len(),
{
    g.rows()
}

/// `Grid::cols`: the number of columns.
#[verifier::external_body]
pub(crate) fn tile_grid_cols(g: &grid::Grid<Tile>) -> (n: usize)
    ensures
        n == tile_cols(*g),
{
    g.cols()
}

/// `Grid::get(row, col)`: the cell when it lies inside the grid.
#[verifier::external_body]
pub(crate) fn tile_grid_get(g: &grid::Grid<Tile>, row: usize, col: usize) -> (t: Option<Tile>)
    ensures
        tile_in(*g, row as int, col as int) ==> t == Some(tile_cell(*g, row as int, col as int)),
        !tile_in(*g, row as int, col as int) ==> t is None,
{
    g.get(row, col).copied()
}

/// `Grid::get_mut(row, col)` followed by a write: the cell changes when it lies
/// inside the grid, every other cell and the dimensions stay as they are.
#[verifier::external_body]
pub(crate) fn tile_grid_set(g: &mut grid::Grid<Tile>, row: usize, col: usize, t: Tile)
    ensures
        tile_cols(*final(g)) == tile_cols(*old(g)),
        tile_cells(*final(g)).len() == tile_cells(*old(g)).len(),
        forall|r: int, c: int| #[trigger] tile_in(*final(g), r, c) ==> tile_cell(*final(g), r, c) == if r == row && c == col {
            t
        } else {
            tile_cell(*old(g), r, c)
        },
{
    if let Some(cell) = g.get_mut(row, col) {
        *cell = t;
    }
}

/// `Grid::clone`: a grid with the same cells.
#[verifier::external_body]
pub(crate) fn tile_grid_clone(g: &grid::Grid<Tile>) -> (c: grid::Grid<Tile>)
    ensures
        tile_cells(c) == tile_cells(*g),
        tile_cols(c) == tile_cols(*g),
{
    g.clone()
}


/// The cells of a grid of flags, one sequence per row.
pub uninterp spec fn flag_cells(g: grid::Grid<bool>) -> Seq<Seq<bool>>;

/// The number of columns of a grid of flags.
pub uninterp spec fn flag_cols(g: grid::Grid<bool>) -> nat;

pub open spec fn flag_cell(g: grid::Grid<bool>, row: int, col: int) -> bool {
    flag_cells(g)[row][col]
}

pub open spec fn flag_in(g: grid::Grid<bool>, row: int, col: int) -> bool {
    0 <= row < flag_cells(g).len() && 0 <= col < flag_cols(g)
}

/// `Grid::new(rows, cols)`: a grid of false; an empty grid, with no rows and no
/// columns, when either dimension is zero.
#[verifier::external_body]
pub(crate) fn flag_grid_new(rows: usize, cols: usize) -> (g: grid::Grid<bool>)
    requires
        rows * cols <= usize::MAX,
    ensures
        rows == 0 || cols == 0 ==> flag_cells(g).len() == 0 && flag_cols(g) == 0,
        rows > 0 && cols > 0 ==> {
            &&& flag_cells(g).len() == rows
            &&& flag_cols(g) == cols
            &&& forall|r: int, c: int| 0 <= r < rows && 0 <= c < cols ==> #[trigger] flag_cell(g, r, c) == false
        },
{
    grid::Grid::new(rows, cols)
}

/// `Grid::rows`: the number of rows.
#[verifier::external_body]
pub(crate) fn flag_grid_rows(g: &grid::Grid<bool>) -> (n: usize)
    ensures
        n == flag_cells(*g).len(),
{
    g.rows()
}

/// `Grid::cols`: the number of columns.
#[verifier::external_body]
pub(crate) fn flag_grid_cols(g: &grid::Grid<bool>) -> (n: usize)
    ensures
        n == flag_cols(*g),
{
    g.cols()
}

/// `Grid::get(row, col)`: the cell when it lies inside the grid.
#[verifier::external_body]
pub(crate) fn flag_grid_get(g: &grid::Grid<bool>, row: usize, col: usize) -> (t: Option<bool>)
    ensures
        flag_in(*g, row as int, col as int) ==> t == Some(flag_cell(*g, row as int, col as int)),
        !flag_in(*g, row as int, col as int) ==> t is None,
{
    g.get(row, col).copied()
}

/// `Grid::get_mut(row, col)` followed by a write: the cell changes when it lies
/// inside the grid, every other cell and the dimensions stay as they are.
#[verifier::external_body]
pub(crate) fn flag_grid_set(g: &mut grid::Grid<bool>, row: usize, col: usize, t: bool)
    ensures
        flag_cols(*final(g)) == flag_cols(*old(g)),
        flag_cells(*final(g)).len() == flag_cells(*old(g)).len(),
        forall|r: int, c: int| #[trigger] flag_in(*final(g), r, c) ==> flag_cell(*final(g), r, c) == if r == row && c == col {
            t
        } else {
            flag_cell(*old(g), r, c)
        },
{
    if let Some(cell) = g.get_mut(row, col) {
        *cell = t;
    }
}

/// The cells of a grid of counts, one sequence per row.
pub uninterp spec fn count_cells(g: grid::Grid<u8>) -> Seq<Seq<u8>>;

/// The number of columns of a grid of counts.
pub uninterp spec fn count_cols(g: grid::Grid<u8>) -> nat;

pub open spec fn count_cell(g: grid::Grid<u8>, row: int, col: int) -> u8 {
    count_cells(g)[row][col]
}

pub open spec fn count_in(g: grid::Grid<u8>, row: int, col: int) -> bool {
    0 <= row < count_cells(g).len() && 0 <= col < count_cols(g)
}

/// `Grid::new(rows, cols)`: a grid of 0; an empty grid, with no rows and no
/// columns, when either dimension is zero.
#[verifier::external_body]
pub(crate) fn count_grid_new(rows: usize, cols: usize) -> (g: grid::Grid<u8>)
    requires
        rows * cols <= usize::MAX,
    ensures
        rows == 0 || cols == 0 ==> count_cells(g).len() == 0 && count_cols(g) == 0,
        rows > 0 && cols > 0 ==> {
            &&& count_cells(g).len() == rows
            &&& count_cols(g) == cols
            &&& forall|r: int, c: int| 0 <= r < rows && 0 <= c < cols ==> #[trigger] count_cell(g, r, c) == 0
        },
{
    grid::Grid::new(rows, cols)
}

/// `Grid::get(row, col)`: the cell when it lies inside the grid.
#[verifier::external_body]
pub(crate) fn count_grid_get(g: &grid::Grid<u8>, row: usize, col: usize) -> (t: Option<u8>)
    ensures
        count_in(*g, row as int, col as int) ==> t == Some(count_cell(*g, row as int, col as int)),
        !count_in(*g, row as int, col as int) ==> t is None,
{
    g.get(row, col).copied()
}

/// `Grid::get_mut(row, col)` followed by a write: the cell changes when it lies
/// inside the grid, every other cell and the dimensions stay as they are.
#[verifier::external_body]
pub(crate) fn count_grid_set(g: &mut grid::Grid<u8>, row: usize, col: usize, t: u8)
    ensures
        count_cols(*final(g)) == count_cols(*old(g)),
        count_cells(*final(g)).len() == count_cells(*old(g)).len(),
        forall|r: int, c: int| #[trigger] count_in(*final(g), r, c) ==> count_cell(*final(g), r, c) == if r == row && c == col {
            t
        } else {
            count_cell(*old(g), r, c)
        },
{
    if let Some(cell) = g.get_mut(row, col) {
        *cell = t;
    }
}

/// `Grid::clone`: a grid with the same cells.
#[verifier::external_body]
pub(crate) fn flag_grid_clone(g: &grid::Grid<bool>) -> (c: grid::Grid<bool>)
    ensures
        flag_cells(c) == flag_cells(*g),
        flag_cols(c) == flag_cols(*g),
{
    g.clone()
}

} // verus!
