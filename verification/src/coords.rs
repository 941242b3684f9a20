//! Coordinate systems of the voxel world.
//!
//! `ChunkCoords` places a chunk on the chunk grid, `InnerChunkCoords` places a
//! block inside a chunk (each axis in `[0, CHUNK_SIZE)`), and `FaceDirection`
//! names one of the six faces of a block.

use vstd::prelude::*;
use crate::model::IVec3;

verus! {

/// Edge length of a cubic chunk, in blocks.
pub const CHUNK_SIZE: i32 = 32;

/// Number of blocks in one chunk: `CHUNK_SIZE` cubed.
pub const BLOCKS_COUNT: usize = 32768;

/// One of the six axis-aligned faces of a block (or unit steps between cells).
#[derive(Debug, Clone, Copy, PartialEq, Eq, Structural)]
pub enum FaceDirection {
    PosX,
    NegX,
    PosY,
    NegY,
    PosZ,
    NegZ,
}

impl FaceDirection {
    /// Position of this direction in the fixed iteration order `0..6`.
    pub open spec fn spec_index(self) -> int {
        match self {
            FaceDirection::PosX => 0,
            FaceDirection::NegX => 1,
            FaceDirection::PosY => 2,
            FaceDirection::NegY => 3,
            FaceDirection::PosZ => 4,
            FaceDirection::NegZ => 5,
        }
    }

    /// The direction at position `f` of the iteration order.
    pub open spec fn spec_from_index(f: int) -> FaceDirection {
        if f == 0 {
            FaceDirection::PosX
        } else if f == 1 {
            FaceDirection::NegX
        } else if f == 2 {
            FaceDirection::PosY
        } else if f == 3 {
            FaceDirection::NegY
        } else if f == 4 {
            FaceDirection::PosZ
        } else {
            FaceDirection::NegZ
        }
    }

    /// Unit offset this direction takes one cell along.
    pub open spec fn spec_offset(self) -> (int, int, int) {
        match self {
            FaceDirection::PosX => (1int, 0int, 0int),
            FaceDirection::NegX => (-1int, 0int, 0int),
            FaceDirection::PosY => (0int, 1int, 0int),
            FaceDirection::NegY => (0int, -1int, 0int),
            FaceDirection::PosZ => (0int, 0int, 1int),
            FaceDirection::NegZ => (0int, 0int, -1int),
        }
    }

    pub open spec fn spec_is_positive(self) -> bool {
        match self {
            FaceDirection::PosX => true,
            FaceDirection::NegX => false,
            FaceDirection::PosY => true,
            FaceDirection::NegY => false,
            FaceDirection::PosZ => true,
            FaceDirection::NegZ => false,
        }
    }

    pub open spec fn spec_is_x(self) -> bool {
        self == FaceDirection::PosX || self == FaceDirection::NegX
    }

    pub open spec fn spec_is_y(self) -> bool {
        self == FaceDirection::PosY || self == FaceDirection::NegY
    }

    pub open spec fn spec_is_z(self) -> bool {
        self == FaceDirection::PosZ || self == FaceDirection::NegZ
    }

    /// Whether the direction points toward the positive end of its axis.
    pub fn is_positive(self) -> (b: bool)
        ensures
            b == self.spec_is_positive(),
    {
        match self {
            FaceDirection::PosX => true,
            FaceDirection::NegX => false,
            FaceDirection::PosY => true,
            FaceDirection::NegY => false,
            FaceDirection::PosZ => true,
            FaceDirection::NegZ => false,
        }
    }

    /// Whether the direction points toward the negative end of its axis.
    pub fn is_negative(self) -> (b: bool)
        ensures
            b == !self.spec_is_positive(),
    {
        !self.is_positive()
    }

    pub fn is_x(self) -> (b: bool)
        ensures
            b == self.spec_is_x(),
    {
        match self {
            FaceDirection::PosX => true,
            FaceDirection::NegX => true,
            _ => false,
        }
    }

    pub fn is_y(self) -> (b: bool)
        ensures
            b == self.spec_is_y(),
    {
        match self {
            FaceDirection::PosY => true,
            FaceDirection::NegY => true,
            _ => false,
        }
    }

    pub fn is_z(self) -> (b: bool)
        ensures
            b == self.spec_is_z(),
    {
        match self {
            FaceDirection::PosZ => true,
            FaceDirection::NegZ => true,
            _ => false,
        }
    }

    /// Position of this direction in the iteration order `0..6`.
    pub fn index(self) -> (i: usize)
        ensures
            i == self.spec_index(),
    {
        match self {
            FaceDirection::PosX => 0,
            FaceDirection::NegX => 1,
            FaceDirection::PosY => 2,
            FaceDirection::NegY => 3,
            FaceDirection::PosZ => 4,
            FaceDirection::NegZ => 5,
        }
    }

    /// The direction at position `value` of the iteration order.
    ///
    /// Calling this with `value >= 6` is a logic error upstream, so the range
    /// is a precondition rather than a run-time branch.
    pub fn from_index(value: usize) -> (d: FaceDirection)
        requires
            value < 6,
        ensures
            d == FaceDirection::spec_from_index(value as int),
            d.spec_index() == value,
    {
        if value == 0 {
            FaceDirection::PosX
        } else if value == 1 {
            FaceDirection::NegX
        } else if value == 2 {
            FaceDirection::PosY
        } else if value == 3 {
            FaceDirection::NegY
        } else if value == 4 {
            FaceDirection::PosZ
        } else {
            FaceDirection::NegZ
        }
    }

    /// The unit offset of this direction, as plain integer components.
    pub fn offset(self) -> (o: (i32, i32, i32))
        ensures
            o.0 as int == self.spec_offset().0,
            o.1 as int == self.spec_offset().1,
            o.2 as int == self.spec_offset().2,
    {
        match self {
            FaceDirection::PosX => (1, 0, 0),
            FaceDirection::NegX => (-1, 0, 0),
            FaceDirection::PosY => (0, 1, 0),
            FaceDirection::NegY => (0, -1, 0),
            FaceDirection::PosZ => (0, 0, 1),
            FaceDirection::NegZ => (0, 0, -1),
        }
    }

    /// The unit step toward the face-adjacent chunk in this direction.
    pub fn chunk_offset(self) -> (c: ChunkCoords)
        ensures
            c.x as int == self.spec_offset().0,
            c.y as int == self.spec_offset().1,
            c.z as int == self.spec_offset().2,
    {
        let o = self.offset();
        ChunkCoords { x: o.0, y: o.1, z: o.2 }
    }
}

/// Position of a chunk on the chunk grid.
#[derive(Debug, Clone, Copy, PartialEq, Eq, Hash, Structural)]
pub struct ChunkCoords {
    pub x: i32,
    pub y: i32,
    pub z: i32,
}

impl ChunkCoords {
    pub fn new(x: i32, y: i32, z: i32) -> (c: ChunkCoords)
        ensures
            c == (ChunkCoords { x, y, z }),
    {
        ChunkCoords { x, y, z }
    }

    /// Component-wise sum of two chunk positions.
    pub fn plus(self, rhs: ChunkCoords) -> (c: ChunkCoords)
        requires
            i32::MIN <= self.x + rhs.x <= i32::MAX,
            i32::MIN <= self.y + rhs.y <= i32::MAX,
            i32::MIN <= self.z + rhs.z <= i32::MAX,
        ensures
            c.x == self.x + rhs.x,
            c.y == self.y + rhs.y,
            c.z == self.z + rhs.z,
    {
        ChunkCoords { x: self.x + rhs.x, y: self.y + rhs.y, z: self.z + rhs.z }
    }

    /// World-space translation of this chunk's origin, in whole blocks:
    /// each component times the chunk edge length.
    pub fn as_translation(&self) -> (t: IVec3)
        requires
            i32::MIN <= self.x * CHUNK_SIZE <= i32::MAX,
            i32::MIN <= self.y * CHUNK_SIZE <= i32::MAX,
            i32::MIN <= self.z * CHUNK_SIZE <= i32::MAX,
        ensures
            t.x == self.x * CHUNK_SIZE,
            t.y == self.y * CHUNK_SIZE,
            t.z == self.z * CHUNK_SIZE,
    {
        IVec3 { x: self.x * CHUNK_SIZE, y: self.y * CHUNK_SIZE, z: self.z * CHUNK_SIZE }
    }
}

/// Position of a block inside a chunk; each axis lies in `[0, CHUNK_SIZE)`.
///
/// Values are only ever constructed in bounds: an out-of-range axis is a
/// logic error upstream, excluded by precondition.
#[derive(Debug, Clone, Copy, PartialEq, Eq, Hash, Structural)]
pub struct InnerChunkCoords {
    x: i32,
    y: i32,
    z: i32,
}

/// Flat array index of the cell `(x, y, z)`: z-major layout.
pub open spec fn flat_idx(x: int, y: int, z: int) -> int {
    z * (CHUNK_SIZE as int) * (CHUNK_SIZE as int) + y * (CHUNK_SIZE as int) + x
}

/// Whether `(x, y, z)` is a cell of a chunk.
pub open spec fn in_chunk(x: int, y: int, z: int) -> bool {
    &&& 0 <= x < CHUNK_SIZE as int
    &&& 0 <= y < CHUNK_SIZE as int
    &&& 0 <= z < CHUNK_SIZE as int
}

/// The x axis value encoded in flat index `i`.
pub open spec fn idx_x(i: int) -> int {
    i % (CHUNK_SIZE as int)
}

/// The y axis value encoded in flat index `i`.
pub open spec fn idx_y(i: int) -> int {
    (i / (CHUNK_SIZE as int)) % (CHUNK_SIZE as int)
}

/// The z axis value encoded in flat index `i`.
pub open spec fn idx_z(i: int) -> int {
    i / ((CHUNK_SIZE as int) * (CHUNK_SIZE as int))
}

impl InnerChunkCoords {
    pub closed spec fn spec_x(self) -> int {
        self.x as int
    }

    pub closed spec fn spec_y(self) -> int {
        self.y as int
    }

    pub closed spec fn spec_z(self) -> int {
        self.z as int
    }

    pub open spec fn wf(self) -> bool {
        in_chunk(self.spec_x(), self.spec_y(), self.spec_z())
    }

    /// Flat array index of this cell.
    pub open spec fn idx(self) -> int {
        flat_idx(self.spec_x(), self.spec_y(), self.spec_z())
    }

    /// Whether `(x, y, z)` may form an `InnerChunkCoords`.
    pub fn in_bounds(x: i32, y: i32, z: i32) -> (b: bool)
        ensures
            b == in_chunk(x as int, y as int, z as int),
    {
        0 <= x && x < CHUNK_SIZE && 0 <= y && y < CHUNK_SIZE && 0 <= z && z < CHUNK_SIZE
    }

    pub fn new(x: i32, y: i32, z: i32) -> (c: InnerChunkCoords)
        requires
            in_chunk(x as int, y as int, z as int),
        ensures
            c.spec_x() == x,
            c.spec_y() == y,
            c.spec_z() == z,
            c.wf(),
    {
        InnerChunkCoords { x, y, z }
    }

    pub fn x(&self) -> (v: i32)
        ensures
            v as int == self.spec_x(),
    {
        self.x
    }

    pub fn y(&self) -> (v: i32)
        ensures
            v as int == self.spec_y(),
    {
        self.y
    }

    pub fn z(&self) -> (v: i32)
        ensures
            v as int == self.spec_z(),
    {
        self.z
    }

    /// Flat index of this cell in a chunk's block array.
    pub fn as_idx(&self) -> (i: usize)
        requires
            self.wf(),
        ensures
            i == self.idx(),
            i < BLOCKS_COUNT,
    {
        let size = CHUNK_SIZE as usize;
        (self.z as usize) * size * size + (self.y as usize) * size + (self.x as usize)
    }

    /// The cell whose flat index is `idx`: the inverse of `as_idx`.
    pub fn from_idx(idx: usize) -> (c: InnerChunkCoords)
        requires
            idx < BLOCKS_COUNT,
        ensures
            c.wf(),
            c.spec_x() == idx_x(idx as int),
            c.spec_y() == idx_y(idx as int),
            c.spec_z() == idx_z(idx as int),
            c.idx() == idx,
    {
        let size = CHUNK_SIZE as usize;
        let x = (idx % size) as i32;
        let y = ((idx / size) % size) as i32;
        let z = (idx / (size * size)) as i32;
        proof {
            lemma_flat_idx_of_decomposition(idx as int);
        }
        InnerChunkCoords { x, y, z }
    }

    /// Center of this block in chunk-local space, in half-block units:
    /// the block position plus one half on each axis.
    pub fn as_block_center(&self) -> (p: IVec3)
        requires
            self.wf(),
        ensures
            p.x == 2 * self.spec_x() + 1,
            p.y == 2 * self.spec_y() + 1,
            p.z == 2 * self.spec_z() + 1,
    {
        IVec3 { x: 2 * self.x + 1, y: 2 * self.y + 1, z: 2 * self.z + 1 }
    }
}

/// Decomposing a flat index into axis values and re-encoding it gives the
/// index back, and the axis values are cells of the chunk.
pub proof fn lemma_flat_idx_of_decomposition(i: int)
    requires
        0 <= i < BLOCKS_COUNT,
    ensures
        in_chunk(idx_x(i), idx_y(i), idx_z(i)),
        flat_idx(idx_x(i), idx_y(i), idx_z(i)) == i,
{
    assert(in_chunk(idx_x(i), idx_y(i), idx_z(i))
        && flat_idx(idx_x(i), idx_y(i), idx_z(i)) == i) by (nonlinear_arith)
        requires
            0 <= i < 32768,
    ;
}

/// Encoding a cell and decomposing the index gives the cell back: together
/// with `lemma_flat_idx_of_decomposition`, the cell-to-index mapping is a
/// bijection between the cells of a chunk and `[0, BLOCKS_COUNT)`.
pub proof fn lemma_flat_idx_round_trip(x: int, y: int, z: int)
    requires
        in_chunk(x, y, z),
    ensures
        0 <= flat_idx(x, y, z) < BLOCKS_COUNT,
        idx_x(flat_idx(x, y, z)) == x,
        idx_y(flat_idx(x, y, z)) == y,
        idx_z(flat_idx(x, y, z)) == z,
{
    assert(0 <= flat_idx(x, y, z) < 32768
        && idx_x(flat_idx(x, y, z)) == x
        && idx_y(flat_idx(x, y, z)) == y
        && idx_z(flat_idx(x, y, z)) == z) by (nonlinear_arith)
        requires
            0 <= x < 32 && 0 <= y < 32 && 0 <= z < 32,
    ;
}

/// Distinct cells have distinct flat indices.
pub proof fn lemma_flat_idx_injective(a: InnerChunkCoords, b: InnerChunkCoords)
    requires
        a.wf(),
        b.wf(),
        a.idx() == b.idx(),
    ensures
        a == b,
{
    lemma_flat_idx_round_trip(a.spec_x(), a.spec_y(), a.spec_z());
    lemma_flat_idx_round_trip(b.spec_x(), b.spec_y(), b.spec_z());
}

} // verus!
