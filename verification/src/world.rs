//! The block grid: a flat, fixed-dimension array of tile-type codes with
//! bounds-checked read and write by 2D coordinate.
//!
//! Every coordinate pair (x, y) with x < MAP_WIDTH and y < MAP_HEIGHT maps to
//! exactly one cell; all other coordinates are out of bounds and accessing
//! them reports `OutOfBounds` (no wraparound, no clamping).

use vstd::prelude::*;
use vstd::pervasive::VecAdditionalExecFns;
use vstd::assert_seqs_equal;

verus! {

pub const MAP_WIDTH: u32 = 4000;

pub const MAP_HEIGHT: u32 = 500;

pub const MAP_AREA: u32 = MAP_WIDTH * MAP_HEIGHT;

/// Errors raised by the grid accessors.
#[derive(Clone, Copy, Debug, PartialEq, Eq, Structural)]
pub enum WorldError {
    /// The coordinate lies outside [0, MAP_WIDTH) x [0, MAP_HEIGHT).
    OutOfBounds,
}

/// Whether (x, y) addresses a cell of the grid.
pub open spec fn spec_in_bounds(x: int, y: int) -> bool {
    0 <= x < MAP_WIDTH && 0 <= y < MAP_HEIGHT
}

/// The flat index of the cell (x, y): row-major with stride MAP_WIDTH.
pub open spec fn spec_index(x: int, y: int) -> int {
    x + y * MAP_WIDTH
}

/// A flat sequence of tile codes has the grid's dimensions.
pub open spec fn grid_dims(g: Seq<u16>) -> bool {
    g.len() == MAP_AREA
}

pub proof fn lemma_index_in_range(x: int, y: int)
    requires
        spec_in_bounds(x, y),
    ensures
        0 <= spec_index(x, y) < MAP_AREA,
        spec_index(x, y) % (MAP_WIDTH as int) == x,
        spec_index(x, y) / (MAP_WIDTH as int) == y,
{
    let w = MAP_WIDTH as int;
    assert(x + y * w < w + y * w);
    assert(w + y * w == (y + 1) * w) by (nonlinear_arith);
    assert((y + 1) * w <= 500 * w) by (nonlinear_arith)
        requires
            y + 1 <= 500,
            w > 0,
    ;
    assert((x + y * w) % w == x && (x + y * w) / w == y) by (nonlinear_arith)
        requires
            0 <= x < w,
            0 <= y,
    ;
}

/// The world: a rectangular grid of tile codes.
pub struct World {
    map: Vec<u16>,
}

impl World {
    /// The grid contents as a flat sequence of length MAP_AREA.
    pub closed spec fn grid(self) -> Seq<u16> {
        self.map@
    }

    /// Structural validity: the backing storage has exactly one cell per
    /// coordinate pair.
    pub open spec fn wf(self) -> bool {
        grid_dims(self.grid())
    }

    /// The tile at an in-bounds coordinate, as a spec value.
    pub open spec fn spec_tile(self, x: int, y: int) -> u16 {
        self.grid()[spec_index(x, y)]
    }

    /// Wraps a full backing store in a grid.
    pub(crate) fn from_map(map: Vec<u16>) -> (w: World)
        requires
            grid_dims(map@),
        ensures
            w.wf(),
            w.grid() == map@,
    {
        World { map }
    }

    /// A world with every cell set to air.
    pub fn new_empty() -> (w: World)
        ensures
            w.wf(),
            w.grid() == Seq::new(MAP_AREA as nat, |i: int| crate::tile::AIR),
    {
        let mut map: Vec<u16> = Vec::new();
        while map.len() < MAP_AREA as usize
            invariant
                map@.len() <= MAP_AREA,
                forall|i: int| 0 <= i < map@.len() ==> map@[i] == crate::tile::AIR,
            decreases MAP_AREA as int - map@.len(),
        {
            map.push(crate::tile::AIR);
        }
        proof {
            assert_seqs_equal!(map@, Seq::new(MAP_AREA as nat, |i: int| crate::tile::AIR));
        }
        World { map }
    }

    /// What a read returns: the tile for an in-bounds coordinate, and
    /// `OutOfBounds` for any other, as a function of the grid and the
    /// coordinate alone.
    pub open spec fn spec_get_block(self, x: u32, y: u32) -> Result<u16, WorldError> {
        if spec_in_bounds(x as int, y as int) {
            Ok(self.spec_tile(x as int, y as int))
        } else {
            Err(WorldError::OutOfBounds)
        }
    }

    /// Bounds-checked read. Returns the tile at (x, y), or `OutOfBounds` when
    /// x >= MAP_WIDTH or y >= MAP_HEIGHT. Reading never changes the grid, so
    /// two reads of the same coordinate with no intervening write are equal.
    pub fn get_block(&self, x: u32, y: u32) -> (r: Result<u16, WorldError>)
        requires
            self.wf(),
        ensures
            r == self.spec_get_block(x, y),
            spec_in_bounds(x as int, y as int) ==> r == Ok::<u16, WorldError>(
                self.spec_tile(x as int, y as int),
            ),
            !spec_in_bounds(x as int, y as int) ==> r == Err::<u16, WorldError>(
                WorldError::OutOfBounds,
            ),
    {
        if x < MAP_WIDTH && y < MAP_HEIGHT {
            proof {
                lemma_index_in_range(x as int, y as int);
            }
            let idx: usize = (x as usize) + (y as usize) * (MAP_WIDTH as usize);
            Ok(self.map[idx])
        } else {
            Err(WorldError::OutOfBounds)
        }
    }

    /// Bounds-checked write. Sets the single cell (x, y) to `block_type`,
    /// visible to all subsequent reads; out-of-bounds coordinates report
    /// `OutOfBounds` and leave the grid unchanged.
    pub fn set_block(&mut self, x: u32, y: u32, block_type: u16) -> (r: Result<(), WorldError>)
        requires
            old(self).wf(),
        ensures
            final(self).wf(),
            spec_in_bounds(x as int, y as int) ==> r == Ok::<(), WorldError>(())
                && final(self).grid() == old(self).grid().update(
                    spec_index(x as int, y as int),
                    block_type,
                ),
            !spec_in_bounds(x as int, y as int) ==> r == Err::<(), WorldError>(
                WorldError::OutOfBounds,
            ) && final(self).grid() == old(self).grid(),
    {
        if x < MAP_WIDTH && y < MAP_HEIGHT {
            proof {
                lemma_index_in_range(x as int, y as int);
            }
            let idx: usize = (x as usize) + (y as usize) * (MAP_WIDTH as usize);
            self.map.set(idx, block_type);
            Ok(())
        } else {
            Err(WorldError::OutOfBounds)
        }
    }
}

/// Idempotent reads: a read is a pure function of the grid and the
/// coordinate, so two reads of the same coordinate with no intervening write
/// return the same value.
pub proof fn lemma_reads_idempotent(
    w: World,
    x: u32,
    y: u32,
    r1: Result<u16, WorldError>,
    r2: Result<u16, WorldError>,
)
    requires
        r1 == w.spec_get_block(x, y),
        r2 == w.spec_get_block(x, y),
    ensures
        r1 == r2,
{
}

} // verus!
