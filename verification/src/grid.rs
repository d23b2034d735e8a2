//! Dense grid construction over the `ghx_grid` grid types.
//!
//! A room's sparse tile data is laid out into a dense 3D grid of the
//! room's extents: every cell starts empty, and each sparse entry is
//! written at its index, later entries shadowing earlier ones.  The grid
//! container comes from the `ghx_grid` crate; it sits behind [`RoomGrid`],
//! whose contents are named by [`grid_cells`] and pinned by each trusted
//! method's contract.

use vstd::prelude::*;

use crate::mechanics::Room;
use crate::mechanics::RoomView;
use crate::mechanics::TileData;
use crate::mechanics::TileEntry;
use ghx_grid::cartesian::coordinates::Cartesian3D;
use ghx_grid::cartesian::grid::CartesianGrid;
use ghx_grid::grid::Grid;
use ghx_grid::grid::GridData;

verus! {

/// A dense 3D tile grid: a `ghx_grid` grid definition together with its
/// linear data buffer.  The constructor below is the only way to build a
/// value of this type, so the buffer's length is always the grid's total
/// size.
#[verifier::external_body]
pub struct RoomGrid {
    inner: GridData<Cartesian3D, TileData, CartesianGrid<Cartesian3D>>,
}

/// The tiles the grid's linear buffer holds, cell by cell.
pub uninterp spec fn grid_cells(g: RoomGrid) -> Seq<TileData>;

/// The extents and per-axis looping flags the grid was defined with.
pub uninterp spec fn grid_dims(g: RoomGrid) -> (u32, u32, u32, bool, bool, bool);

/// Relies on `CartesianGrid::new_cartesian_3d` and
/// `CartesianGrid::new_grid_data`: the grid spans one cell per position
/// of the box — the product of the extents, which must fit the grid's
/// 32-bit size arithmetic — and the buffer holds one copy of the element
/// for every cell.
#[verifier::external_body]
fn grid_new(x: u32, y: u32, z: u32, lx: bool, ly: bool, lz: bool, elem: TileData) -> (g: RoomGrid)
    requires
        x * y <= u32::MAX,
        x * y * z <= u32::MAX,
    ensures
        grid_dims(g) == (x, y, z, lx, ly, lz),
        grid_cells(g).len() == x * y * z,
        forall|i: int| 0 <= i < grid_cells(g).len() ==> grid_cells(g)[i] == elem,
{
    let grid = CartesianGrid::new_cartesian_3d(x, y, z, lx, ly, lz);
    RoomGrid { inner: grid.new_grid_data(elem) }
}

impl RoomGrid {
    /// Relies on `GridData::set` with a plain grid index: writes the
    /// value at that cell of the linear buffer and nothing else.
    #[verifier::external_body]
    fn set(&mut self, index: usize, value: TileData)
        requires
            index < grid_cells(*old(self)).len(),
        ensures
            grid_cells(*final(self)) == grid_cells(*old(self)).update(index as int, value),
            grid_dims(*final(self)) == grid_dims(*old(self)),
    {
        self.inner.set(index, value)
    }

    /// Relies on `GridData::get`: reads the value at that cell of the
    /// linear buffer.
    #[verifier::external_body]
    pub fn get(&self, index: usize) -> (t: &TileData)
        requires
            index < grid_cells(*self).len(),
        ensures
            *t == grid_cells(*self)[index as int],
    {
        self.inner.get(index)
    }

    /// Relies on `Grid::total_size`: the buffer was allocated with one
    /// element per cell and its length never changes, so the grid's total
    /// size is the buffer's length.
    #[verifier::external_body]
    pub fn total_size(&self) -> (n: usize)
        ensures
            n == grid_cells(*self).len(),
    {
        self.inner.grid().total_size()
    }

    /// Relies on `CartesianGrid::size`: the extents the grid definition
    /// was created with.
    #[verifier::external_body]
    pub fn size(&self) -> (r: (u32, u32, u32))
        ensures
            r == (grid_dims(*self).0, grid_dims(*self).1, grid_dims(*self).2),
    {
        self.inner.grid().size()
    }
}

/// The room's extents fit the grid's size arithmetic and every sparse
/// tile entry names a cell inside the box.
pub open spec fn room_grid_wf(v: RoomView) -> bool {
    &&& v.extent_x as int * v.extent_y as int <= u32::MAX
    &&& v.extent_x as int * v.extent_y as int * v.extent_z as int <= u32::MAX
    &&& forall|i: int|
        0 <= i < v.tiles.len() ==> (#[trigger] v.tiles[i]).index < v.extent_x as int
            * v.extent_y as int * v.extent_z as int
}

/// The tile standing at `cell` once the sparse entries are overlaid in
/// order: the latest entry for the cell, or the empty tile.
pub open spec fn tiles_lookup(tiles: Seq<TileEntry>, cell: int) -> TileData
    decreases tiles.len(),
{
    if tiles.len() == 0 {
        TileData::Empty
    } else if tiles.last().index == cell {
        tiles.last().tile
    } else {
        tiles_lookup(tiles.drop_last(), cell)
    }
}

/// Multiplication is monotone in both non-negative factors.
proof fn lemma_mul_le(a: int, b: int, c: int, d: int)
    by (nonlinear_arith)
    requires
        0 <= a <= c,
        0 <= b <= d,
    ensures
        a * b <= c * d,
{
}

impl Room {
    /// Decide [`room_grid_wf`] for this room, so that a caller holding a
    /// freshly parsed room can establish [`Room::create_grid`]'s
    /// precondition.
    pub fn grid_fits(&self) -> (r: bool)
        ensures
            r == room_grid_wf(self@),
    {
        proof {
            lemma_mul_le(
                self.extent_x as int,
                self.extent_y as int,
                u32::MAX as int,
                u32::MAX as int,
            );
        }
        let xy: u128 = (self.extent_x as u128) * (self.extent_y as u128);
        if xy > u32::MAX as u128 {
            return false;
        }
        proof {
            lemma_mul_le(xy as int, self.extent_z as int, u32::MAX as int, u32::MAX as int);
        }
        let vol: u128 = xy * (self.extent_z as u128);
        if vol > u32::MAX as u128 {
            return false;
        }
        let mut k: usize = 0;
        while k < self.tiles.len()
            invariant
                k <= self.tiles.len(),
                xy == self@.extent_x as int * self@.extent_y as int,
                vol == self@.extent_x as int * self@.extent_y as int * self@.extent_z as int,
                vol <= u32::MAX,
                forall|j: int|
                    0 <= j < k ==> (#[trigger] self@.tiles[j]).index < vol,
            decreases self.tiles.len() - k,
        {
            if self.tiles[k].index as u128 >= vol {
                return false;
            }
            k += 1;
        }
        true
    }

    /// Lay the room out as a dense 3D grid: one cell per position of the
    /// box, default-filled with the empty tile, with every sparse entry
    /// overlaid at its index in order.  A pure transform: the room is not
    /// changed.
    pub fn create_grid(&self) -> (g: RoomGrid)
        requires
            room_grid_wf(self@),
        ensures
            grid_dims(g) == (
                self@.extent_x,
                self@.extent_y,
                self@.extent_z,
                self@.looping_x,
                self@.looping_y,
                self@.looping_z,
            ),
            grid_cells(g).len() == self@.extent_x as int * self@.extent_y as int
                * self@.extent_z as int,
            forall|c: int|
                0 <= c < grid_cells(g).len() ==> grid_cells(g)[c] == tiles_lookup(
                    self@.tiles,
                    c,
                ),
    {
        let mut grid_data = grid_new(
            self.extent_x,
            self.extent_y,
            self.extent_z,
            self.looping_x,
            self.looping_y,
            self.looping_z,
            TileData::Empty,
        );
        let ghost vol = self@.extent_x as int * self@.extent_y as int * self@.extent_z as int;
        proof {
            assert(self@.tiles.take(0) =~= Seq::<TileEntry>::empty());
        }
        let mut k: usize = 0;
        while k < self.tiles.len()
            invariant
                k <= self.tiles.len(),
                room_grid_wf(self@),
                vol == self@.extent_x as int * self@.extent_y as int * self@.extent_z as int,
                grid_cells(grid_data).len() == vol,
                grid_dims(grid_data) == (
                    self@.extent_x,
                    self@.extent_y,
                    self@.extent_z,
                    self@.looping_x,
                    self@.looping_y,
                    self@.looping_z,
                ),
                forall|c: int|
                    0 <= c < vol ==> grid_cells(grid_data)[c] == tiles_lookup(
                        self@.tiles.take(k as int),
                        c,
                    ),
            decreases self.tiles.len() - k,
        {
            let e = self.tiles[k];
            grid_data.set(e.index, e.tile);
            proof {
                assert(self@.tiles.take(k as int + 1).last() == self@.tiles[k as int]);
                assert(self@.tiles.take(k as int + 1).drop_last() =~= self@.tiles.take(
                    k as int,
                ));
            }
            k += 1;
        }
        proof {
            assert(self@.tiles.take(self@.tiles.len() as int) =~= self@.tiles);
        }
        grid_data
    }
}

} // verus!
