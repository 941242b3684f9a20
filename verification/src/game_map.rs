//! The world map: every loaded chunk, keyed by its chunk coordinates, with a
//! persistent render handle per coordinate and an explicit meshing state.
//!
//! Handles survive chunk unload and reload, so geometry arriving late can
//! still be routed to the correct render slot. Every remesh-worthy change
//! stamps the chunk with a fresh generation from a counter that never
//! repeats, so stale meshing results are recognised and discarded.

use vstd::prelude::*;
use crate::chunk::{BlockId, Chunk};
use crate::coords::{
    CHUNK_SIZE, ChunkCoords, FaceDirection, InnerChunkCoords, flat_idx, in_chunk,
    lemma_flat_idx_round_trip,
};
use crate::mesher::{ConstructedChunk, MeshChunkRequest};

verus! {

/// Meshing state of one loaded chunk.
#[derive(Debug, Clone, Copy, PartialEq, Eq, Structural)]
pub enum MeshState {
    /// The chunk's geometry is missing or stale; a remesh is owed.
    Unmeshed,
    /// A meshing request for the current generation has been handed out and
    /// no result has come back yet; no second request may be issued.
    InFlight,
    /// Geometry for the current generation has been produced and attached.
    Meshed,
}

/// How one meshing result was integrated.
#[derive(Debug, Clone, Copy, PartialEq, Eq, Structural)]
pub enum IntegrationOutcome {
    /// The result is current: the chunk is now meshed and its geometry
    /// belongs on this render handle.
    Applied(u64),
    /// No chunk is loaded at the result's coordinates; the geometry is
    /// discarded.
    UnknownChunk,
    /// The chunk was re-stamped after this result's snapshot was taken; the
    /// geometry is discarded and a fresh request will follow.
    Stale,
}

/// One loaded chunk with its meshing bookkeeping.
#[derive(Debug)]
pub struct ChunkEntry {
    pub chunk: Chunk,
    pub mesh_state: MeshState,
    /// Stamp of the most recent remesh-worthy change to this chunk.
    pub generation: u64,
}

/// Position of the first pair carrying key `c`, or `-1` when none does.
pub open spec fn assoc_index<V>(s: Seq<(ChunkCoords, V)>, c: ChunkCoords) -> int
    decreases s.len(),
{
    if s.len() == 0 {
        -1
    } else if s[0].0 == c {
        0
    } else {
        let r = assoc_index(s.drop_first(), c);
        if r < 0 {
            -1
        } else {
            r + 1
        }
    }
}

/// Whether some pair carries key `c`.
pub open spec fn assoc_has<V>(s: Seq<(ChunkCoords, V)>, c: ChunkCoords) -> bool {
    assoc_index(s, c) >= 0
}

/// The value of the first pair carrying key `c`.
pub open spec fn assoc_get<V>(s: Seq<(ChunkCoords, V)>, c: ChunkCoords) -> V {
    s[assoc_index(s, c)].1
}

/// No two pairs carry the same key.
pub open spec fn assoc_unique<V>(s: Seq<(ChunkCoords, V)>) -> bool {
    forall|i: int, j: int| 0 <= i < j < s.len() ==> (#[trigger] s[i]).0 != (#[trigger] s[j]).0
}

/// `assoc_index` finds exactly the first pair carrying the key.
pub proof fn lemma_assoc_index_spec<V>(s: Seq<(ChunkCoords, V)>, c: ChunkCoords)
    ensures
        assoc_has(s, c) == exists|j: int| 0 <= j < s.len() && (#[trigger] s[j]).0 == c,
        assoc_has(s, c) ==> {
            &&& 0 <= assoc_index(s, c) < s.len()
            &&& s[assoc_index(s, c)].0 == c
            &&& forall|j: int| 0 <= j < assoc_index(s, c) ==> (#[trigger] s[j]).0 != c
        },
    decreases s.len(),
{
    if s.len() == 0 {
    } else if s[0].0 == c {
    } else {
        let tail = s.drop_first();
        lemma_assoc_index_spec(tail, c);
        assert(forall|j: int| 0 <= j < tail.len() ==> #[trigger] tail[j] == s[j + 1]);
        if assoc_has(tail, c) {
            let i = assoc_index(tail, c);
            assert(s[i + 1].0 == c);
            assert forall|j: int| 0 <= j < assoc_index(s, c) implies (#[trigger] s[j]).0 != c by {
                if j > 0 {
                    assert(tail[j - 1] == s[j]);
                }
            }
        } else {
            assert forall|j: int| 0 <= j < s.len() implies (#[trigger] s[j]).0 != c by {
                if j > 0 {
                    assert(tail[j - 1] == s[j]);
                }
            }
        }
    }
}

/// Under unique keys, any pair carrying the key is the one `assoc_index`
/// finds.
pub proof fn lemma_assoc_unique_match<V>(s: Seq<(ChunkCoords, V)>, c: ChunkCoords, j: int)
    requires
        assoc_unique(s),
        0 <= j < s.len(),
        s[j].0 == c,
    ensures
        assoc_has(s, c),
        assoc_index(s, c) == j,
        assoc_get(s, c) == s[j].1,
{
    lemma_assoc_index_spec(s, c);
    let i = assoc_index(s, c);
    if i < j {
        assert(s[i].0 == s[j].0);
    }
}

/// Replacing the value of the pair at position `i` keeps keys unique and
/// changes the association of that pair's key alone.
pub proof fn lemma_assoc_set_value<V>(s: Seq<(ChunkCoords, V)>, i: int, v: V)
    requires
        assoc_unique(s),
        0 <= i < s.len(),
    ensures
        assoc_unique(s.update(i, (s[i].0, v))),
        forall|c2: ChunkCoords|
            assoc_has(s.update(i, (s[i].0, v)), c2) == assoc_has(s, c2),
        assoc_get(s.update(i, (s[i].0, v)), s[i].0) == v,
        forall|c2: ChunkCoords|
            c2 != s[i].0 && assoc_has(s, c2) ==> assoc_get(s.update(i, (s[i].0, v)), c2)
                == assoc_get(s, c2),
{
    let s2 = s.update(i, (s[i].0, v));
    assert forall|j: int| 0 <= j < s.len() implies (#[trigger] s2[j]).0 == s[j].0 by {
        if j != i {
            assert(s2[j] == s[j]);
        }
    }
    assert forall|c2: ChunkCoords| assoc_has(s2, c2) == assoc_has(s, c2) by {
        lemma_assoc_index_spec(s, c2);
        lemma_assoc_index_spec(s2, c2);
        if assoc_has(s, c2) {
            let j = assoc_index(s, c2);
            assert(s2[j].0 == c2);
        }
        if assoc_has(s2, c2) {
            let j = assoc_index(s2, c2);
            assert(s[j].0 == c2);
        }
    }
    lemma_assoc_unique_match(s2, s[i].0, i);
    assert forall|c2: ChunkCoords| c2 != s[i].0 && assoc_has(s, c2) implies assoc_get(s2, c2)
        == assoc_get(s, c2) by {
        lemma_assoc_index_spec(s, c2);
        let j = assoc_index(s, c2);
        lemma_assoc_unique_match(s, c2, j);
        lemma_assoc_unique_match(s2, c2, j);
    }
}

/// Appending a pair with a fresh key keeps keys unique, associates the new
/// key with the new value, and leaves every other key's association alone.
pub proof fn lemma_assoc_push_new<V>(s: Seq<(ChunkCoords, V)>, c: ChunkCoords, v: V)
    requires
        assoc_unique(s),
        !assoc_has(s, c),
    ensures
        assoc_unique(s.push((c, v))),
        assoc_has(s.push((c, v)), c),
        assoc_get(s.push((c, v)), c) == v,
        forall|c2: ChunkCoords|
            c2 != c ==> assoc_has(s.push((c, v)), c2) == assoc_has(s, c2),
        forall|c2: ChunkCoords|
            c2 != c && assoc_has(s, c2) ==> assoc_get(s.push((c, v)), c2) == assoc_get(s, c2),
{
    let s2 = s.push((c, v));
    lemma_assoc_index_spec(s, c);
    assert(forall|j: int| 0 <= j < s.len() ==> #[trigger] s2[j] == s[j]);
    assert(s2[s.len() as int] == (c, v));
    assert(assoc_unique(s2));
    lemma_assoc_unique_match(s2, c, s.len() as int);
    assert forall|c2: ChunkCoords| c2 != c implies assoc_has(s2, c2) == assoc_has(s, c2) by {
        lemma_assoc_index_spec(s, c2);
        lemma_assoc_index_spec(s2, c2);
        if assoc_has(s, c2) {
            let j = assoc_index(s, c2);
            assert(s2[j].0 == c2);
        }
        if assoc_has(s2, c2) {
            let j = assoc_index(s2, c2);
            assert(j < s.len());
            assert(s[j].0 == c2);
        }
    }
    assert forall|c2: ChunkCoords| c2 != c && assoc_has(s, c2) implies assoc_get(s2, c2)
        == assoc_get(s, c2) by {
        lemma_assoc_index_spec(s, c2);
        let j = assoc_index(s, c2);
        lemma_assoc_unique_match(s, c2, j);
        lemma_assoc_unique_match(s2, c2, j);
    }
}

/// Removing the pair at position `i` by swapping in the last pair keeps keys
/// unique, drops that pair's key, and leaves every other key's association
/// alone.
pub proof fn lemma_assoc_swap_remove<V>(s: Seq<(ChunkCoords, V)>, i: int)
    requires
        assoc_unique(s),
        0 <= i < s.len(),
    ensures
        assoc_unique(s.update(i, s.last()).drop_last()),
        !assoc_has(s.update(i, s.last()).drop_last(), s[i].0),
        forall|c2: ChunkCoords|
            c2 != s[i].0 ==> assoc_has(s.update(i, s.last()).drop_last(), c2) == assoc_has(s, c2),
        forall|c2: ChunkCoords|
            c2 != s[i].0 && assoc_has(s, c2) ==> assoc_get(s.update(i, s.last()).drop_last(), c2)
                == assoc_get(s, c2),
{
    let s2 = s.update(i, s.last()).drop_last();
    let c = s[i].0;
    let last = s.len() - 1;
    assert(forall|j: int|
        0 <= j < s2.len() ==> #[trigger] s2[j] == (if j == i { s[last] } else { s[j] }));
    assert forall|i1: int, j1: int| 0 <= i1 < j1 < s2.len() implies (#[trigger] s2[i1]).0
        != (#[trigger] s2[j1]).0 by {
        if i1 == i {
            assert(s2[i1] == s[last] && s2[j1] == s[j1]);
        } else if j1 == i {
            assert(s2[i1] == s[i1] && s2[j1] == s[last]);
        }
    }
    lemma_assoc_index_spec(s2, c);
    assert forall|j: int| 0 <= j < s2.len() implies (#[trigger] s2[j]).0 != c by {
        if j == i {
            assert(s2[j] == s[last]);
            if last != i {
                assert(s[i].0 != s[last].0);
            }
        } else {
            assert(s2[j] == s[j]);
            assert(s[j].0 != s[i].0);
        }
    }
    assert forall|c2: ChunkCoords| c2 != c implies assoc_has(s2, c2) == assoc_has(s, c2) by {
        lemma_assoc_index_spec(s, c2);
        lemma_assoc_index_spec(s2, c2);
        if assoc_has(s, c2) {
            let j = assoc_index(s, c2);
            if j == last {
                assert(i < last);
                assert(s2[i].0 == c2);
            } else {
                assert(j != i);
                assert(s2[j].0 == c2);
            }
        }
        if assoc_has(s2, c2) {
            let j = assoc_index(s2, c2);
            if j == i {
                assert(s[last].0 == c2);
            } else {
                assert(s[j].0 == c2);
            }
        }
    }
    assert forall|c2: ChunkCoords| c2 != c && assoc_has(s, c2) implies assoc_get(s2, c2)
        == assoc_get(s, c2) by {
        lemma_assoc_index_spec(s, c2);
        let j = assoc_index(s, c2);
        lemma_assoc_unique_match(s, c2, j);
        if j == last {
            assert(i < last);
            assert(s2[i] == s[last]);
            lemma_assoc_unique_match(s2, c2, i);
        } else {
            assert(j != i);
            assert(s2[j] == s[j]);
            lemma_assoc_unique_match(s2, c2, j);
        }
    }
}

/// Find the position of key `c` in an association vector.
fn assoc_find<V>(s: &Vec<(ChunkCoords, V)>, c: ChunkCoords) -> (r: Option<usize>)
    ensures
        match r {
            Some(i) => i < s@.len() && s@[i as int].0 == c && assoc_index(s@, c) == i,
            None => !assoc_has(s@, c),
        },
{
    proof {
        lemma_assoc_index_spec(s@, c);
    }
    let mut n: usize = 0;
    while n < s.len()
        invariant
            n <= s@.len(),
            forall|j: int| 0 <= j < n ==> (#[trigger] s@[j]).0 != c,
        decreases s@.len() - n,
    {
        if s[n].0 == c {
            proof {
                lemma_assoc_index_spec(s@, c);
                let i = assoc_index(s@, c);
                assert(i >= 0);
                assert(i >= n);
                assert(i <= n);
            }
            return Some(n);
        }
        n = n + 1;
    }
    proof {
        lemma_assoc_index_spec(s@, c);
    }
    None
}

/// Whether an edit at `inner` lies on the chunk boundary toward `d`, so the
/// face-adjacent chunk in that direction sees the edited cell and may need
/// remeshing too.
pub open spec fn edit_touches(inner: InnerChunkCoords, d: FaceDirection) -> bool {
    match d {
        FaceDirection::PosX => inner.spec_x() == CHUNK_SIZE as int - 1,
        FaceDirection::NegX => inner.spec_x() == 0,
        FaceDirection::PosY => inner.spec_y() == CHUNK_SIZE as int - 1,
        FaceDirection::NegY => inner.spec_y() == 0,
        FaceDirection::PosZ => inner.spec_z() == CHUNK_SIZE as int - 1,
        FaceDirection::NegZ => inner.spec_z() == 0,
    }
}

/// Whether an edit at `inner` lies on the chunk boundary toward `d`.
fn touches_boundary(inner: InnerChunkCoords, d: FaceDirection) -> (b: bool)
    ensures
        b == edit_touches(inner, d),
{
    match d {
        FaceDirection::PosX => inner.x() == CHUNK_SIZE - 1,
        FaceDirection::NegX => inner.x() == 0,
        FaceDirection::PosY => inner.y() == CHUNK_SIZE - 1,
        FaceDirection::NegY => inner.y() == 0,
        FaceDirection::PosZ => inner.z() == CHUNK_SIZE - 1,
        FaceDirection::NegZ => inner.z() == 0,
    }
}

/// The chunk-grid position one step from `c` along `d`.
pub open spec fn spec_adjacent_coords(c: ChunkCoords, d: FaceDirection) -> ChunkCoords {
    let (dx, dy, dz) = d.spec_offset();
    ChunkCoords { x: (c.x + dx) as i32, y: (c.y + dy) as i32, z: (c.z + dz) as i32 }
}

/// Ground height of the test-terrain column at `(bx, bz)` of the chunk at
/// grid position `(cx, 0, cz)`: two or three blocks depending on the parity
/// of the chunk position, one more on an inner plateau.
pub open spec fn test_column_height(cx: int, cz: int, bx: int, bz: int) -> int {
    (if (cx + cz) % 2 == 0 {
        3int
    } else {
        2int
    }) + (if 3 <= bx <= CHUNK_SIZE as int - 3 && 3 <= bz <= CHUNK_SIZE as int - 3 {
        1int
    } else {
        0int
    })
}

/// The block the test terrain stores at cell `(bx, by, bz)` of the chunk at
/// grid position `(cx, 0, cz)`: below the column height, a block id cycling
/// through three values; above it, air.
pub open spec fn test_block_at(cx: int, cz: int, bx: int, by: int, bz: int) -> Option<BlockId> {
    if by < test_column_height(cx, cz, bx, bz) {
        Some((((bx + bz) % 3) as BlockId))
    } else {
        None
    }
}

/// Build the test-terrain chunk for grid position `(cx, 0, cz)`.
fn test_chunk(cx: i32, cz: i32) -> (c: Chunk)
    requires
        -5 <= cx < 5,
        -5 <= cz < 5,
    ensures
        c.wf(),
        forall|x: int, y: int, z: int|
            in_chunk(x, y, z) ==> c@[flat_idx(x, y, z)] == test_block_at(
                cx as int,
                cz as int,
                x,
                y,
                z,
            ),
{
    let mut chunk = Chunk::new();
    let mut bz: i32 = 0;
    while bz < CHUNK_SIZE
        invariant
            -5 <= cx < 5,
            -5 <= cz < 5,
            0 <= bz <= CHUNK_SIZE,
            chunk.wf(),
            forall|x: int, y: int, z: int|
                in_chunk(x, y, z) ==> #[trigger] chunk@[flat_idx(x, y, z)] == (if z < bz {
                    test_block_at(cx as int, cz as int, x, y, z)
                } else {
                    None
                }),
        decreases CHUNK_SIZE - bz,
    {
        let mut bx: i32 = 0;
        while bx < CHUNK_SIZE
            invariant
                -5 <= cx < 5,
                -5 <= cz < 5,
                0 <= bz < CHUNK_SIZE,
                0 <= bx <= CHUNK_SIZE,
                chunk.wf(),
                forall|x: int, y: int, z: int|
                    in_chunk(x, y, z) ==> #[trigger] chunk@[flat_idx(x, y, z)] == (if z < bz || (
                    z == bz && x < bx) {
                        test_block_at(cx as int, cz as int, x, y, z)
                    } else {
                        None
                    }),
            decreases CHUNK_SIZE - bx,
        {
            let mut max_y: i32 = if ((cx + cz + 10) as u32) % 2 == 0 {
                3
            } else {
                2
            };
            if 3 <= bx && bx <= CHUNK_SIZE - 3 && 3 <= bz && bz <= CHUNK_SIZE - 3 {
                max_y = max_y + 1;
            }
            let block: u32 = ((bx + bz) as u32) % 3;
            proof {
                assert((cx + cz + 10) % 2 == (cx + cz) % 2) by (nonlinear_arith);
                assert(max_y as int == test_column_height(cx as int, cz as int, bx as int, bz as int));
                assert(block == (bx + bz) % 3);
            }
            let mut by: i32 = 0;
            while by < max_y
                invariant
                    0 <= bz < CHUNK_SIZE,
                    0 <= bx < CHUNK_SIZE,
                    0 <= by <= max_y,
                    max_y <= 4,
                    chunk.wf(),
                    max_y as int == test_column_height(cx as int, cz as int, bx as int, bz as int),
                    block == (bx + bz) % 3,
                    forall|x: int, y: int, z: int|
                        in_chunk(x, y, z) ==> #[trigger] chunk@[flat_idx(x, y, z)] == (if z < bz
                            || (z == bz && x < bx) {
                            test_block_at(cx as int, cz as int, x, y, z)
                        } else if z == bz && x == bx && y < by {
                            Some(block)
                        } else {
                            None
                        }),
                decreases max_y - by,
            {
                let ghost before = chunk@;
                chunk.set_block(InnerChunkCoords::new(bx, by, bz), Some(block));
                proof {
                    assert forall|x: int, y: int, z: int| in_chunk(x, y, z) implies
                        #[trigger] chunk@[flat_idx(x, y, z)] == (if z < bz || (z == bz && x < bx) {
                        test_block_at(cx as int, cz as int, x, y, z)
                    } else if z == bz && x == bx && y < by + 1 {
                        Some(block)
                    } else {
                        None
                    }) by {
                        lemma_flat_idx_round_trip(x, y, z);
                        lemma_flat_idx_round_trip(bx as int, by as int, bz as int);
                        if x == bx && y == by && z == bz {
                        } else {
                            assert(flat_idx(x, y, z) != flat_idx(bx as int, by as int, bz as int));
                            assert(chunk@[flat_idx(x, y, z)] == before[flat_idx(x, y, z)]);
                        }
                    }
                }
                by = by + 1;
            }
            proof {
                assert forall|x: int, y: int, z: int| in_chunk(x, y, z) implies
                    #[trigger] chunk@[flat_idx(x, y, z)] == (if z < bz || (z == bz && x < bx + 1) {
                    test_block_at(cx as int, cz as int, x, y, z)
                } else {
                    None
                }) by {
                    if z == bz && x == bx {
                        assert(test_block_at(cx as int, cz as int, x, y, z) == (if y < max_y {
                            Some((((x + z) % 3) as BlockId))
                        } else {
                            None
                        }));
                    }
                }
            }
            bx = bx + 1;
        }
        bz = bz + 1;
    }
    chunk
}

/// Owns every loaded chunk and the stable coordinate-to-handle registry.
#[derive(Debug)]
pub struct GameMap {
    chunks: Vec<(ChunkCoords, ChunkEntry)>,
    chunk_handle_map: Vec<(ChunkCoords, u64)>,
    next_handle: u64,
    next_generation: u64,
}

impl GameMap {
    /// Abstract view of the loaded chunks.
    pub closed spec fn chunk_map(self) -> Map<ChunkCoords, ChunkEntry> {
        Map::new(
            |c: ChunkCoords| assoc_has(self.chunks@, c),
            |c: ChunkCoords| assoc_get(self.chunks@, c),
        )
    }

    /// Abstract view of the handle registry.
    pub closed spec fn handle_map(self) -> Map<ChunkCoords, u64> {
        Map::new(
            |c: ChunkCoords| assoc_has(self.chunk_handle_map@, c),
            |c: ChunkCoords| assoc_get(self.chunk_handle_map@, c),
        )
    }

    /// The generation the next remesh-worthy change will be stamped with.
    /// Stamps are handed out strictly increasingly and never reused.
    pub closed spec fn gen_counter(self) -> u64 {
        self.next_generation
    }

    /// The handle the next newly seen coordinate will be assigned.
    pub closed spec fn handle_counter(self) -> u64 {
        self.next_handle
    }

    pub closed spec fn wf(self) -> bool {
        &&& assoc_unique(self.chunks@)
        &&& assoc_unique(self.chunk_handle_map@)
        &&& forall|i: int|
            0 <= i < self.chunks@.len() ==> (#[trigger] self.chunks@[i]).1.chunk.wf()
        &&& forall|i: int|
            0 <= i < self.chunks@.len()
                ==> (#[trigger] self.chunks@[i]).1.generation < self.next_generation
        &&& forall|i: int|
            0 <= i < self.chunks@.len() ==> assoc_has(
                self.chunk_handle_map@,
                (#[trigger] self.chunks@[i]).0,
            )
        &&& forall|i: int|
            0 <= i < self.chunk_handle_map@.len()
                ==> (#[trigger] self.chunk_handle_map@[i]).1 < self.next_handle
    }

    /// What well-formedness means through the abstract views: every loaded
    /// chunk has a handle, holds a well-formed block array, and was stamped
    /// before the current generation counter.
    pub proof fn lemma_wf_views(self)
        requires
            self.wf(),
        ensures
            forall|c: ChunkCoords| #[trigger] self.chunk_map().dom().contains(c) ==> {
                &&& self.handle_map().dom().contains(c)
                &&& self.chunk_map()[c].chunk.wf()
                &&& self.chunk_map()[c].generation < self.gen_counter()
            },
    {
        assert forall|c: ChunkCoords| #[trigger] self.chunk_map().dom().contains(c) implies {
            &&& self.handle_map().dom().contains(c)
            &&& self.chunk_map()[c].chunk.wf()
            &&& self.chunk_map()[c].generation < self.gen_counter()
        } by {
            lemma_assoc_index_spec(self.chunks@, c);
            let i = assoc_index(self.chunks@, c);
            assert(self.chunks@[i].1.chunk.wf());
        }
    }

    /// An empty world: no chunks, no handles, counters at zero.
    pub fn new() -> (m: GameMap)
        ensures
            m.wf(),
            m.chunk_map() == Map::<ChunkCoords, ChunkEntry>::empty(),
            m.handle_map() == Map::<ChunkCoords, u64>::empty(),
            m.gen_counter() == 0,
            m.handle_counter() == 0,
    {
        let m = GameMap {
            chunks: Vec::new(),
            chunk_handle_map: Vec::new(),
            next_handle: 0,
            next_generation: 0,
        };
        proof {
            assert(m.chunk_map() =~= Map::<ChunkCoords, ChunkEntry>::empty());
            assert(m.handle_map() =~= Map::<ChunkCoords, u64>::empty());
        }
        m
    }

    /// A small test world: a ten-by-ten grid of terrain chunks around the
    /// origin, every one registered with a handle and awaiting its first
    /// mesh.
    pub fn new_test() -> (m: GameMap)
        ensures
            m.wf(),
            forall|c: ChunkCoords|
                #[trigger] m.chunk_map().dom().contains(c) == (-5 <= c.x < 5 && c.y == 0 && -5
                    <= c.z < 5),
            forall|c: ChunkCoords|
                #[trigger] m.chunk_map().dom().contains(c) ==> {
                    &&& m.chunk_map()[c].mesh_state == MeshState::Unmeshed
                    &&& forall|x: int, y: int, z: int|
                        in_chunk(x, y, z) ==> m.chunk_map()[c].chunk@[flat_idx(x, y, z)]
                            == test_block_at(c.x as int, c.z as int, x, y, z)
                },
    {
        let mut m = GameMap::new();
        let mut cz: i32 = -5;
        while cz < 5
            invariant
                -5 <= cz <= 5,
                m.wf(),
                m.gen_counter() == (cz + 5) * 10,
                m.handle_counter() == (cz + 5) * 10,
                forall|c: ChunkCoords|
                    #[trigger] m.handle_map().dom().contains(c) == m.chunk_map().dom().contains(
                        c,
                    ),
                forall|c: ChunkCoords|
                    #[trigger] m.chunk_map().dom().contains(c) == (-5 <= c.x < 5 && c.y == 0 && -5
                        <= c.z < cz),
                forall|c: ChunkCoords|
                    #[trigger] m.chunk_map().dom().contains(c) ==> {
                        &&& m.chunk_map()[c].mesh_state == MeshState::Unmeshed
                        &&& forall|x: int, y: int, z: int|
                            in_chunk(x, y, z) ==> m.chunk_map()[c].chunk@[flat_idx(x, y, z)]
                                == test_block_at(c.x as int, c.z as int, x, y, z)
                    },
            decreases 5 - cz,
        {
            let mut cx: i32 = -5;
            while cx < 5
                invariant
                    -5 <= cz < 5,
                    -5 <= cx <= 5,
                    m.wf(),
                    m.gen_counter() == (cz + 5) * 10 + (cx + 5),
                    m.handle_counter() == (cz + 5) * 10 + (cx + 5),
                    forall|c: ChunkCoords|
                        #[trigger] m.handle_map().dom().contains(c) == m.chunk_map().dom()
                            .contains(c),
                    forall|c: ChunkCoords|
                        #[trigger] m.chunk_map().dom().contains(c) == (c.y == 0 && ((-5 <= c.x < 5
                            && -5 <= c.z < cz) || (-5 <= c.x < cx && c.z == cz))),
                    forall|c: ChunkCoords|
                        #[trigger] m.chunk_map().dom().contains(c) ==> {
                            &&& m.chunk_map()[c].mesh_state == MeshState::Unmeshed
                            &&& forall|x: int, y: int, z: int|
                                in_chunk(x, y, z) ==> m.chunk_map()[c].chunk@[flat_idx(x, y, z)]
                                    == test_block_at(c.x as int, c.z as int, x, y, z)
                        },
                decreases 5 - cx,
            {
                let chunk = test_chunk(cx, cz);
                let coords = ChunkCoords::new(cx, 0, cz);
                m.insert_chunk(coords, chunk);
                cx = cx + 1;
            }
            cz = cz + 1;
        }
        m
    }

    /// The chunk loaded at `coords`, if any.
    pub fn chunk_at(&self, coords: ChunkCoords) -> (r: Option<&Chunk>)
        ensures
            match r {
                Some(c) => self.chunk_map().dom().contains(coords) && *c == self.chunk_map()[coords].chunk,
                None => !self.chunk_map().dom().contains(coords),
            },
    {
        match assoc_find(&self.chunks, coords) {
            Some(i) => Some(&self.chunks[i].1.chunk),
            None => None,
        }
    }

    /// The persistent render handle registered for `coords`, if any.
    pub fn handle_of(&self, coords: ChunkCoords) -> (r: Option<u64>)
        ensures
            match r {
                Some(h) => self.handle_map().dom().contains(coords) && h == self.handle_map()[coords],
                None => !self.handle_map().dom().contains(coords),
            },
    {
        match assoc_find(&self.chunk_handle_map, coords) {
            Some(i) => Some(self.chunk_handle_map[i].1),
            None => None,
        }
    }

    /// Load (or replace) the chunk at `coords`. The entry starts unmeshed
    /// with a fresh generation stamp; a handle is registered the first time
    /// a coordinate is seen and kept forever after, so a later unload and
    /// reload resolves to the same render slot.
    pub fn insert_chunk(&mut self, coords: ChunkCoords, chunk: Chunk)
        requires
            old(self).wf(),
            chunk.wf(),
            old(self).gen_counter() < u64::MAX,
            old(self).handle_counter() < u64::MAX,
        ensures
            final(self).wf(),
            final(self).chunk_map() == old(self).chunk_map().insert(
                coords,
                ChunkEntry {
                    chunk,
                    mesh_state: MeshState::Unmeshed,
                    generation: old(self).gen_counter(),
                },
            ),
            final(self).handle_map() == (if old(self).handle_map().dom().contains(coords) {
                old(self).handle_map()
            } else {
                old(self).handle_map().insert(coords, old(self).handle_counter())
            }),
            final(self).gen_counter() == old(self).gen_counter() + 1,
            final(self).handle_counter() as int == (if old(self).handle_map().dom().contains(
                coords,
            ) {
                old(self).handle_counter() as int
            } else {
                old(self).handle_counter() + 1
            }),
    {
        let ghost s0 = self.chunks@;
        let ghost h0 = self.chunk_handle_map@;
        let entry = ChunkEntry {
            chunk,
            mesh_state: MeshState::Unmeshed,
            generation: self.next_generation,
        };
        let ghost ev = entry;
        self.next_generation = self.next_generation + 1;

        match assoc_find(&self.chunks, coords) {
            Some(i) => {
                proof {
                    assert(s0[i as int].0 == coords);
                }
                self.chunks.set(i, (coords, entry));
                proof {
                    lemma_assoc_set_value(s0, i as int, ev);
                    assert((coords, ev) == (s0[i as int].0, ev));
                    assert(self.chunks@ == s0.update(i as int, (s0[i as int].0, ev)));
                    assert(assoc_get(s0.update(i as int, (s0[i as int].0, ev)), s0[i as int].0)
                        == ev);
                    assert(assoc_has(s0, coords));
                    assert(assoc_has(s0.update(i as int, (s0[i as int].0, ev)), coords));
                    assert(assoc_has(self.chunks@, coords));
                    assert(assoc_get(self.chunks@, coords) == ev);
                }
            },
            None => {
                self.chunks.push((coords, entry));
                proof {
                    lemma_assoc_push_new(s0, coords, ev);
                }
            },
        }

        match assoc_find(&self.chunk_handle_map, coords) {
            Some(_) => {},
            None => {
                let h = self.next_handle;
                self.chunk_handle_map.push((coords, h));
                self.next_handle = self.next_handle + 1;
                proof {
                    lemma_assoc_push_new(h0, coords, h);
                }
            },
        }

        proof {
            lemma_assoc_index_spec(h0, coords);
            let mnew = self.chunk_map();
            let mtarget = old(self).chunk_map().insert(coords, ev);
            assert forall|c2: ChunkCoords| #[trigger] mnew.dom().contains(c2) == mtarget.dom()
                .contains(c2) by {}
            assert forall|c2: ChunkCoords| mnew.dom().contains(c2) implies #[trigger] mnew[c2]
                == mtarget[c2] by {}
            assert(mnew =~= mtarget);

            let hnew = self.handle_map();
            let htarget = if old(self).handle_map().dom().contains(coords) {
                old(self).handle_map()
            } else {
                old(self).handle_map().insert(coords, old(self).handle_counter())
            };
            assert forall|c2: ChunkCoords| #[trigger] hnew.dom().contains(c2) == htarget.dom()
                .contains(c2) by {}
            assert forall|c2: ChunkCoords| hnew.dom().contains(c2) implies #[trigger] hnew[c2]
                == htarget[c2] by {}
            assert(hnew =~= htarget);

            assert forall|i: int| 0 <= i < self.chunks@.len() implies {
                &&& (#[trigger] self.chunks@[i]).1.chunk.wf()
                &&& self.chunks@[i].1.generation < self.next_generation
                &&& assoc_has(self.chunk_handle_map@, self.chunks@[i].0)
            } by {
                if i < s0.len() && self.chunks@[i] == s0[i] {
                    assert(assoc_has(h0, s0[i].0));
                }
            }
            assert forall|i: int| 0 <= i < self.chunk_handle_map@.len() implies (
            #[trigger] self.chunk_handle_map@[i]).1 < self.next_handle by {}
        }
    }

    /// Unload the chunk at `coords` and hand it back. The handle registry is
    /// deliberately left untouched: the coordinate keeps its render slot for
    /// a later reload or for results still in flight.
    pub fn remove_chunk(&mut self, coords: ChunkCoords) -> (r: Option<Chunk>)
        requires
            old(self).wf(),
        ensures
            final(self).wf(),
            final(self).handle_map() == old(self).handle_map(),
            final(self).gen_counter() == old(self).gen_counter(),
            final(self).handle_counter() == old(self).handle_counter(),
            match r {
                Some(c) => {
                    &&& old(self).chunk_map().dom().contains(coords)
                    &&& c == old(self).chunk_map()[coords].chunk
                    &&& final(self).chunk_map() == old(self).chunk_map().remove(coords)
                },
                None => {
                    &&& !old(self).chunk_map().dom().contains(coords)
                    &&& final(self).chunk_map() == old(self).chunk_map()
                },
            },
    {
        let ghost s0 = self.chunks@;
        match assoc_find(&self.chunks, coords) {
            Some(i) => {
                let pair = self.chunks.swap_remove(i);
                proof {
                    lemma_assoc_swap_remove(s0, i as int);
                    assert(s0[i as int].0 == coords);
                    assert(self.chunks@ == s0.update(i as int, s0.last()).drop_last());
                    assert(!assoc_has(self.chunks@, coords));
                    lemma_assoc_unique_match(s0, coords, i as int);
                    assert(pair.1 == assoc_get(s0, coords));

                    let mnew = self.chunk_map();
                    let mtarget = old(self).chunk_map().remove(coords);
                    assert forall|c2: ChunkCoords| #[trigger] mnew.dom().contains(c2)
                        == mtarget.dom().contains(c2) by {
                        if c2 != coords {
                            assert(assoc_has(self.chunks@, c2) == assoc_has(s0, c2));
                        }
                    }
                    assert forall|c2: ChunkCoords| mnew.dom().contains(c2) implies
                        #[trigger] mnew[c2] == mtarget[c2] by {
                        assert(assoc_get(self.chunks@, c2) == assoc_get(s0, c2));
                    }
                    assert(mnew =~= mtarget);

                    assert forall|j: int| 0 <= j < self.chunks@.len() implies {
                        &&& (#[trigger] self.chunks@[j]).1.chunk.wf()
                        &&& self.chunks@[j].1.generation < self.next_generation
                        &&& assoc_has(self.chunk_handle_map@, self.chunks@[j].0)
                    } by {
                        assert(self.chunks@[j] == (if j == i as int {
                            s0.last()
                        } else {
                            s0[j]
                        }));
                    }
                }
                Some(pair.1.chunk)
            },
            None => {
                proof {
                    assert(self.chunk_map() =~= old(self).chunk_map());
                }
                None
            },
        }
    }

    /// The chunk loaded one step from `coords` along `direction`, if any:
    /// the chunk at `coords + offset(direction)`.
    pub fn adjacent(&self, coords: ChunkCoords, direction: FaceDirection) -> (r: Option<&Chunk>)
        requires
            i32::MIN < coords.x < i32::MAX,
            i32::MIN < coords.y < i32::MAX,
            i32::MIN < coords.z < i32::MAX,
        ensures
            match r {
                Some(c) => self.chunk_map().dom().contains(spec_adjacent_coords(coords, direction))
                    && *c == self.chunk_map()[spec_adjacent_coords(coords, direction)].chunk,
                None => !self.chunk_map().dom().contains(spec_adjacent_coords(coords, direction)),
            },
    {
        let offset = direction.chunk_offset();
        self.chunk_at(coords.plus(offset))
    }

    /// Re-stamp the loaded chunk entry at position `i` (key `coords`) with a
    /// new state and generation, keeping its block contents and everything
    /// else in the map.
    fn restate_entry(&mut self, coords: ChunkCoords, i: usize, mesh_state: MeshState, generation: u64)
        requires
            old(self).wf(),
            i < old(self).chunks@.len(),
            old(self).chunks@[i as int].0 == coords,
            generation < old(self).gen_counter(),
        ensures
            final(self).wf(),
            final(self).handle_map() == old(self).handle_map(),
            final(self).handle_counter() == old(self).handle_counter(),
            final(self).gen_counter() == old(self).gen_counter(),
            old(self).chunk_map().dom().contains(coords),
            final(self).chunk_map() == old(self).chunk_map().insert(
                coords,
                ChunkEntry {
                    chunk: old(self).chunk_map()[coords].chunk,
                    mesh_state,
                    generation,
                },
            ),
    {
        let ghost s0 = self.chunks@;
        let pair = self.chunks.swap_remove(i);
        let entry = ChunkEntry { chunk: pair.1.chunk, mesh_state, generation };
        let ghost ev = entry;
        let ghost s1 = self.chunks@;
        self.chunks.push((coords, entry));
        proof {
            lemma_assoc_swap_remove(s0, i as int);
            lemma_assoc_unique_match(s0, coords, i as int);
            assert(s1 == s0.update(i as int, s0.last()).drop_last());
            assert(!assoc_has(s1, coords));
            lemma_assoc_push_new(s1, coords, ev);
            assert(self.chunks@ == s1.push((coords, ev)));
            assert(ev.chunk == assoc_get(s0, coords).chunk);

            let mnew = self.chunk_map();
            let mtarget = old(self).chunk_map().insert(coords, ev);
            assert forall|c2: ChunkCoords| #[trigger] mnew.dom().contains(c2) == mtarget.dom()
                .contains(c2) by {
                if c2 != coords {
                    assert(assoc_has(self.chunks@, c2) == assoc_has(s1, c2));
                    assert(assoc_has(s1, c2) == assoc_has(s0, c2));
                }
            }
            assert forall|c2: ChunkCoords| mnew.dom().contains(c2) implies #[trigger] mnew[c2]
                == mtarget[c2] by {
                if c2 != coords {
                    assert(assoc_get(self.chunks@, c2) == assoc_get(s1, c2));
                    assert(assoc_get(s1, c2) == assoc_get(s0, c2));
                } else {
                    assert(assoc_get(self.chunks@, coords) == ev);
                }
            }
            assert(mnew =~= mtarget);

            assert forall|j: int| 0 <= j < self.chunks@.len() implies {
                &&& (#[trigger] self.chunks@[j]).1.chunk.wf()
                &&& self.chunks@[j].1.generation < self.next_generation
                &&& assoc_has(self.chunk_handle_map@, self.chunks@[j].0)
            } by {
                if j < s1.len() {
                    assert(self.chunks@[j] == s1[j]);
                    assert(s1[j] == (if j == i as int {
                        s0.last()
                    } else {
                        s0[j]
                    }));
                } else {
                    assert(self.chunks@[j] == (coords, ev));
                    assert(assoc_has(self.chunk_handle_map@, s0[i as int].0));
                }
            }
        }
    }

    /// Mark the chunk at `coords` as needing a remesh: its state returns to
    /// `Unmeshed` and it is stamped with a fresh generation, so any result
    /// already in flight for it will be recognised as stale. Marking an
    /// unloaded coordinate changes nothing.
    pub fn mark_dirty(&mut self, coords: ChunkCoords)
        requires
            old(self).wf(),
            old(self).gen_counter() < u64::MAX,
        ensures
            final(self).wf(),
            final(self).handle_map() == old(self).handle_map(),
            final(self).handle_counter() == old(self).handle_counter(),
            old(self).chunk_map().dom().contains(coords) ==> {
                &&& final(self).chunk_map() == old(self).chunk_map().insert(
                    coords,
                    ChunkEntry {
                        chunk: old(self).chunk_map()[coords].chunk,
                        mesh_state: MeshState::Unmeshed,
                        generation: old(self).gen_counter(),
                    },
                )
                &&& final(self).gen_counter() == old(self).gen_counter() + 1
            },
            !old(self).chunk_map().dom().contains(coords) ==> {
                &&& final(self).chunk_map() == old(self).chunk_map()
                &&& final(self).gen_counter() == old(self).gen_counter()
            },
    {
        match assoc_find(&self.chunks, coords) {
            Some(i) => {
                let generation = self.next_generation;
                self.next_generation = self.next_generation + 1;
                self.restate_entry(coords, i, MeshState::Unmeshed, generation);
            },
            None => {
                proof {
                    assert(self.chunk_map() =~= old(self).chunk_map());
                }
            },
        }
    }

    /// Edit one cell of the chunk at `coords` and mark everything the edit
    /// can have exposed or hidden as needing a remesh: the chunk itself,
    /// and, when the cell lies on a chunk boundary, the loaded face-adjacent
    /// chunk on the other side of that boundary. Returns whether a chunk was
    /// loaded at `coords`; editing an unloaded coordinate changes nothing.
    pub fn set_block(
        &mut self,
        coords: ChunkCoords,
        inner: InnerChunkCoords,
        block: Option<BlockId>,
    ) -> (r: bool)
        requires
            old(self).wf(),
            inner.wf(),
            old(self).gen_counter() + 7 <= u64::MAX,
            i32::MIN < coords.x < i32::MAX,
            i32::MIN < coords.y < i32::MAX,
            i32::MIN < coords.z < i32::MAX,
        ensures
            final(self).wf(),
            final(self).handle_map() == old(self).handle_map(),
            final(self).handle_counter() == old(self).handle_counter(),
            r == old(self).chunk_map().dom().contains(coords),
            final(self).chunk_map().dom() == old(self).chunk_map().dom(),
            !r ==> final(self).chunk_map() == old(self).chunk_map() && final(self).gen_counter()
                == old(self).gen_counter(),
            r ==> {
                &&& final(self).chunk_map()[coords].chunk@ == old(self).chunk_map()[coords].chunk@
                    .update(inner.idx(), block)
                &&& final(self).chunk_map()[coords].mesh_state == MeshState::Unmeshed
                &&& final(self).chunk_map()[coords].generation == old(self).gen_counter()
                &&& final(self).gen_counter() > old(self).gen_counter()
                &&& forall|c2: ChunkCoords|
                    #[trigger] old(self).chunk_map().dom().contains(c2) && c2 != coords ==> {
                        &&& final(self).chunk_map()[c2].chunk == old(self).chunk_map()[c2].chunk
                        &&& if exists|f: int|
                            0 <= f < 6 && #[trigger] edit_touches(
                                inner,
                                FaceDirection::spec_from_index(f),
                            ) && c2 == spec_adjacent_coords(
                                coords,
                                FaceDirection::spec_from_index(f),
                            ) {
                            final(self).chunk_map()[c2].mesh_state == MeshState::Unmeshed
                                && final(self).chunk_map()[c2].generation >= old(
                                self,
                            ).gen_counter()
                        } else {
                            final(self).chunk_map()[c2] == old(self).chunk_map()[c2]
                        }
                    }
            },
    {
        let ghost s0 = self.chunks@;
        match assoc_find(&self.chunks, coords) {
            None => {
                proof {
                    assert(self.chunk_map() =~= old(self).chunk_map());
                    assert(self.chunk_map().dom() =~= old(self).chunk_map().dom());
                }
                false
            },
            Some(i) => {
                let pair = self.chunks.swap_remove(i);
                let mut chunk = pair.1.chunk;
                chunk.set_block(inner, block);
                let entry = ChunkEntry {
                    chunk,
                    mesh_state: MeshState::Unmeshed,
                    generation: self.next_generation,
                };
                let ghost ev = entry;
                self.next_generation = self.next_generation + 1;
                let ghost s1 = self.chunks@;
                self.chunks.push((coords, entry));
                proof {
                    lemma_assoc_swap_remove(s0, i as int);
                    lemma_assoc_unique_match(s0, coords, i as int);
                    assert(!assoc_has(s1, coords));
                    lemma_assoc_push_new(s1, coords, ev);
                    assert(assoc_get(self.chunks@, coords) == ev);
                    assert(ev.chunk@ == assoc_get(s0, coords).chunk@.update(inner.idx(), block));

                    assert forall|c2: ChunkCoords| #[trigger] self.chunk_map().dom().contains(c2)
                        == old(self).chunk_map().dom().contains(c2) by {
                        if c2 != coords {
                            assert(assoc_has(self.chunks@, c2) == assoc_has(s1, c2));
                            assert(assoc_has(s1, c2) == assoc_has(s0, c2));
                        }
                    }
                    assert forall|c2: ChunkCoords|
                        self.chunk_map().dom().contains(c2) && c2 != coords implies
                        #[trigger] self.chunk_map()[c2] == old(self).chunk_map()[c2] by {
                        assert(assoc_get(self.chunks@, c2) == assoc_get(s1, c2));
                        assert(assoc_get(s1, c2) == assoc_get(s0, c2));
                    }

                    assert forall|j: int| 0 <= j < self.chunks@.len() implies {
                        &&& (#[trigger] self.chunks@[j]).1.chunk.wf()
                        &&& self.chunks@[j].1.generation < self.next_generation
                        &&& assoc_has(self.chunk_handle_map@, self.chunks@[j].0)
                    } by {
                        if j < s1.len() {
                            assert(self.chunks@[j] == s1[j]);
                            assert(s1[j] == (if j == i as int {
                                s0.last()
                            } else {
                                s0[j]
                            }));
                        } else {
                            assert(self.chunks@[j] == (coords, ev));
                            assert(assoc_has(self.chunk_handle_map@, s0[i as int].0));
                        }
                    }
                }

                let mut f: usize = 0;
                while f < 6
                    invariant
                        self.wf(),
                        inner.wf(),
                        f <= 6,
                        i32::MIN < coords.x < i32::MAX,
                        i32::MIN < coords.y < i32::MAX,
                        i32::MIN < coords.z < i32::MAX,
                        self.handle_map() == old(self).handle_map(),
                        self.handle_counter() == old(self).handle_counter(),
                        old(self).chunk_map().dom().contains(coords),
                        old(self).gen_counter() + 7 <= u64::MAX,
                        forall|c2: ChunkCoords|
                            #[trigger] self.chunk_map().dom().contains(c2) == old(
                                self,
                            ).chunk_map().dom().contains(c2),
                        self.chunk_map()[coords] == ev,
                        ev.chunk@ == old(self).chunk_map()[coords].chunk@.update(
                            inner.idx(),
                            block,
                        ),
                        ev.mesh_state == MeshState::Unmeshed,
                        ev.generation == old(self).gen_counter(),
                        old(self).gen_counter() < self.gen_counter(),
                        self.gen_counter() <= old(self).gen_counter() + 1 + f,
                        forall|c2: ChunkCoords|
                            #[trigger] old(self).chunk_map().dom().contains(c2) && c2 != coords
                                ==> {
                                &&& self.chunk_map()[c2].chunk == old(self).chunk_map()[c2].chunk
                                &&& if exists|fi: int|
                                    0 <= fi < f && #[trigger] edit_touches(
                                        inner,
                                        FaceDirection::spec_from_index(fi),
                                    ) && c2 == spec_adjacent_coords(
                                        coords,
                                        FaceDirection::spec_from_index(fi),
                                    ) {
                                    self.chunk_map()[c2].mesh_state == MeshState::Unmeshed
                                        && self.chunk_map()[c2].generation >= old(
                                        self,
                                    ).gen_counter()
                                } else {
                                    self.chunk_map()[c2] == old(self).chunk_map()[c2]
                                }
                            },
                    decreases 6 - f,
                {
                    let d = FaceDirection::from_index(f);
                    let ghost before = *self;
                    if touches_boundary(inner, d) {
                        let ncoords = coords.plus(d.chunk_offset());
                        proof {
                            assert(ncoords == spec_adjacent_coords(coords, d));
                            assert(ncoords != coords);
                        }
                        self.mark_dirty(ncoords);
                        proof {
                            assert forall|c2: ChunkCoords|
                                #[trigger] old(self).chunk_map().dom().contains(c2) && c2
                                    != coords implies {
                                &&& self.chunk_map()[c2].chunk == old(self).chunk_map()[c2].chunk
                                &&& if exists|fi: int|
                                    0 <= fi < f + 1 && #[trigger] edit_touches(
                                        inner,
                                        FaceDirection::spec_from_index(fi),
                                    ) && c2 == spec_adjacent_coords(
                                        coords,
                                        FaceDirection::spec_from_index(fi),
                                    ) {
                                    self.chunk_map()[c2].mesh_state == MeshState::Unmeshed
                                        && self.chunk_map()[c2].generation >= old(
                                        self,
                                    ).gen_counter()
                                } else {
                                    self.chunk_map()[c2] == old(self).chunk_map()[c2]
                                }
                            } by {
                                if c2 == ncoords && before.chunk_map().dom().contains(ncoords) {
                                    assert(edit_touches(inner, FaceDirection::spec_from_index(f as int)));
                                    assert(c2 == spec_adjacent_coords(
                                        coords,
                                        FaceDirection::spec_from_index(f as int),
                                    ));
                                } else {
                                    assert(self.chunk_map()[c2] == before.chunk_map()[c2]);
                                    if exists|fi: int|
                                        0 <= fi < f + 1 && #[trigger] edit_touches(
                                            inner,
                                            FaceDirection::spec_from_index(fi),
                                        ) && c2 == spec_adjacent_coords(
                                            coords,
                                            FaceDirection::spec_from_index(fi),
                                        ) {
                                        let fi = choose|fi: int|
                                            0 <= fi < f + 1 && #[trigger] edit_touches(
                                                inner,
                                                FaceDirection::spec_from_index(fi),
                                            ) && c2 == spec_adjacent_coords(
                                                coords,
                                                FaceDirection::spec_from_index(fi),
                                            );
                                        if fi == f {
                                            assert(c2 == ncoords);
                                            assert(!before.chunk_map().dom().contains(c2));
                                            assert(false);
                                        }
                                    }
                                }
                            }
                            assert(self.chunk_map()[coords] == ev);
                        }
                    } else {
                        proof {
                            assert forall|c2: ChunkCoords|
                                #[trigger] old(self).chunk_map().dom().contains(c2) && c2
                                    != coords && (exists|fi: int|
                                    0 <= fi < f + 1 && #[trigger] edit_touches(
                                        inner,
                                        FaceDirection::spec_from_index(fi),
                                    ) && c2 == spec_adjacent_coords(
                                        coords,
                                        FaceDirection::spec_from_index(fi),
                                    )) implies (exists|fi: int|
                                0 <= fi < f && #[trigger] edit_touches(
                                    inner,
                                    FaceDirection::spec_from_index(fi),
                                ) && c2 == spec_adjacent_coords(
                                    coords,
                                    FaceDirection::spec_from_index(fi),
                                )) by {
                                let fi = choose|fi: int|
                                    0 <= fi < f + 1 && #[trigger] edit_touches(
                                        inner,
                                        FaceDirection::spec_from_index(fi),
                                    ) && c2 == spec_adjacent_coords(
                                        coords,
                                        FaceDirection::spec_from_index(fi),
                                    );
                                assert(fi != f);
                            }
                        }
                    }
                    f = f + 1;
                }
                proof {
                    assert(self.chunk_map().dom() =~= old(self).chunk_map().dom());
                }
                true
            },
        }
    }

    /// Build the snapshot request for the chunk at `coords` and move it to
    /// `InFlight`. Hands back a request only for a loaded chunk that is
    /// `Unmeshed`, so at most one meshing job is ever in flight per chunk;
    /// any other state (or an unloaded coordinate) changes nothing.
    ///
    /// The snapshot copies the target chunk and its six face-adjacent
    /// neighbors, so the worker never observes later edits.
    pub fn begin_mesh(&mut self, coords: ChunkCoords) -> (r: Option<MeshChunkRequest>)
        requires
            old(self).wf(),
            i32::MIN < coords.x < i32::MAX,
            i32::MIN < coords.y < i32::MAX,
            i32::MIN < coords.z < i32::MAX,
        ensures
            final(self).wf(),
            final(self).handle_map() == old(self).handle_map(),
            final(self).handle_counter() == old(self).handle_counter(),
            final(self).gen_counter() == old(self).gen_counter(),
            match r {
                None => {
                    &&& final(self).chunk_map() == old(self).chunk_map()
                    &&& !(old(self).chunk_map().dom().contains(coords)
                        && old(self).chunk_map()[coords].mesh_state == MeshState::Unmeshed)
                },
                Some(req) => {
                    &&& old(self).chunk_map().dom().contains(coords)
                    &&& old(self).chunk_map()[coords].mesh_state == MeshState::Unmeshed
                    &&& req.wf()
                    &&& req.requested_coords == coords
                    &&& req.requested_chunk@ == old(self).chunk_map()[coords].chunk@
                    &&& req.generation == old(self).chunk_map()[coords].generation
                    &&& forall|fi: int|
                        0 <= fi < 6 ==> match #[trigger] req.adjacent_chunks@[fi] {
                            Some(nc) => old(self).chunk_map().dom().contains(
                                spec_adjacent_coords(coords, FaceDirection::spec_from_index(fi)),
                            ) && nc@ == old(self).chunk_map()[spec_adjacent_coords(
                                coords,
                                FaceDirection::spec_from_index(fi),
                            )].chunk@,
                            None => !old(self).chunk_map().dom().contains(
                                spec_adjacent_coords(coords, FaceDirection::spec_from_index(fi)),
                            ),
                        }
                    &&& final(self).chunk_map() == old(self).chunk_map().insert(
                        coords,
                        ChunkEntry {
                            chunk: old(self).chunk_map()[coords].chunk,
                            mesh_state: MeshState::InFlight,
                            generation: old(self).chunk_map()[coords].generation,
                        },
                    )
                },
            },
    {
        match assoc_find(&self.chunks, coords) {
            None => None,
            Some(i) => {
                proof {
                    lemma_assoc_unique_match(self.chunks@, coords, i as int);
                }
                match self.chunks[i].1.mesh_state {
                    MeshState::Unmeshed => {},
                    _ => {
                        return None;
                    },
                }
                let target = self.chunks[i].1.chunk.duplicate();
                let generation = self.chunks[i].1.generation;

                let mut adjacent_chunks: Vec<Option<Chunk>> = Vec::new();
                let mut fi: usize = 0;
                while fi < 6
                    invariant
                        *self == *old(self),
                        self.wf(),
                        fi <= 6,
                        i32::MIN < coords.x < i32::MAX,
                        i32::MIN < coords.y < i32::MAX,
                        i32::MIN < coords.z < i32::MAX,
                        adjacent_chunks@.len() == fi,
                        forall|j: int|
                            0 <= j < fi ==> match #[trigger] adjacent_chunks@[j] {
                                Some(nc) => nc.wf() && self.chunk_map().dom().contains(
                                    spec_adjacent_coords(
                                        coords,
                                        FaceDirection::spec_from_index(j),
                                    ),
                                ) && nc@ == self.chunk_map()[spec_adjacent_coords(
                                    coords,
                                    FaceDirection::spec_from_index(j),
                                )].chunk@,
                                None => !self.chunk_map().dom().contains(
                                    spec_adjacent_coords(
                                        coords,
                                        FaceDirection::spec_from_index(j),
                                    ),
                                ),
                            },
                    decreases 6 - fi,
                {
                    let d = FaceDirection::from_index(fi);
                    match self.adjacent(coords, d) {
                        Some(neighbor) => {
                            proof {
                                self.lemma_wf_views();
                            }
                            let copy = neighbor.duplicate();
                            adjacent_chunks.push(Some(copy));
                        },
                        None => {
                            adjacent_chunks.push(None);
                        },
                    }
                    fi = fi + 1;
                }

                self.restate_entry(coords, i, MeshState::InFlight, generation);
                Some(
                    MeshChunkRequest {
                        requested_coords: coords,
                        requested_chunk: target,
                        adjacent_chunks,
                        generation,
                    },
                )
            },
        }
    }

    /// The coordinates of every loaded chunk that currently needs a remesh.
    pub fn dirty_coords(&self) -> (r: Vec<ChunkCoords>)
        requires
            self.wf(),
        ensures
            forall|j: int| 0 <= j < r@.len() ==> {
                &&& self.chunk_map().dom().contains(#[trigger] r@[j])
                &&& self.chunk_map()[r@[j]].mesh_state == MeshState::Unmeshed
            },
            forall|c: ChunkCoords|
                #[trigger] self.chunk_map().dom().contains(c) && self.chunk_map()[c].mesh_state
                    == MeshState::Unmeshed ==> r@.contains(c),
            forall|j1: int, j2: int| 0 <= j1 < j2 < r@.len() ==> r@[j1] != r@[j2],
    {
        let mut r: Vec<ChunkCoords> = Vec::new();
        let mut n: usize = 0;
        while n < self.chunks.len()
            invariant
                self.wf(),
                n <= self.chunks@.len(),
                forall|j: int| 0 <= j < r@.len() ==> {
                    &&& self.chunk_map().dom().contains(#[trigger] r@[j])
                    &&& self.chunk_map()[r@[j]].mesh_state == MeshState::Unmeshed
                },
                forall|j: int|
                    0 <= j < r@.len() ==> exists|p: int|
                        0 <= p < n && #[trigger] r@[j] == (#[trigger] self.chunks@[p].0),
                forall|j1: int, j2: int| 0 <= j1 < j2 < r@.len() ==> r@[j1] != r@[j2],
                forall|p: int|
                    0 <= p < n && (#[trigger] self.chunks@[p]).1.mesh_state
                        == MeshState::Unmeshed ==> r@.contains(self.chunks@[p].0),
            decreases self.chunks@.len() - n,
        {
            let keep = match self.chunks[n].1.mesh_state {
                MeshState::Unmeshed => true,
                _ => false,
            };
            if keep {
                proof {
                    lemma_assoc_unique_match(self.chunks@, self.chunks@[n as int].0, n as int);
                }
                let ghost r0 = r@;
                r.push(self.chunks[n].0);
                proof {
                    assert(forall|j: int| 0 <= j < r0.len() ==> #[trigger] r@[j] == r0[j]);
                    assert(r@[r0.len() as int] == self.chunks@[n as int].0);
                    assert(r@.contains(self.chunks@[n as int].0));
                    assert forall|c: ChunkCoords| r0.contains(c) implies r@.contains(c) by {
                        let w = choose|w: int| 0 <= w < r0.len() && r0[w] == c;
                        assert(r@[w] == c);
                    }
                    let ghost new_key = self.chunks@[n as int].0;
                    assert forall|j: int| 0 <= j < r0.len() implies r@[j] != new_key by {
                        let p = choose|p: int|
                            0 <= p < n && r0[j] == (self.chunks@[p].0);
                        assert(self.chunks@[p].0 != self.chunks@[n as int].0);
                    }
                }
            }
            n = n + 1;
        }
        proof {
            assert forall|c: ChunkCoords|
                #[trigger] self.chunk_map().dom().contains(c) && self.chunk_map()[c].mesh_state
                    == MeshState::Unmeshed implies r@.contains(c) by {
                lemma_assoc_index_spec(self.chunks@, c);
                let p = assoc_index(self.chunks@, c);
                assert(self.chunks@[p].1.mesh_state == MeshState::Unmeshed);
            }
        }
        r
    }

    /// Route one finished meshing result. A result for an unloaded
    /// coordinate or for an out-of-date generation is reported as such and
    /// discards nothing but itself; a current result moves the chunk to
    /// `Meshed` and names the render handle its geometry belongs on.
    pub fn integrate_result(&mut self, result: &ConstructedChunk) -> (r: IntegrationOutcome)
        requires
            old(self).wf(),
        ensures
            final(self).wf(),
            final(self).handle_map() == old(self).handle_map(),
            final(self).handle_counter() == old(self).handle_counter(),
            final(self).gen_counter() == old(self).gen_counter(),
            match r {
                IntegrationOutcome::UnknownChunk => {
                    &&& !old(self).chunk_map().dom().contains(result.coords)
                    &&& final(self).chunk_map() == old(self).chunk_map()
                },
                IntegrationOutcome::Stale => {
                    &&& old(self).chunk_map().dom().contains(result.coords)
                    &&& old(self).chunk_map()[result.coords].generation != result.generation
                    &&& final(self).chunk_map() == old(self).chunk_map()
                },
                IntegrationOutcome::Applied(h) => {
                    &&& old(self).chunk_map().dom().contains(result.coords)
                    &&& old(self).chunk_map()[result.coords].generation == result.generation
                    &&& old(self).handle_map().dom().contains(result.coords)
                    &&& h == old(self).handle_map()[result.coords]
                    &&& final(self).chunk_map() == old(self).chunk_map().insert(
                        result.coords,
                        ChunkEntry {
                            chunk: old(self).chunk_map()[result.coords].chunk,
                            mesh_state: MeshState::Meshed,
                            generation: result.generation,
                        },
                    )
                },
            },
    {
        let coords = result.coords;
        match assoc_find(&self.chunks, coords) {
            None => IntegrationOutcome::UnknownChunk,
            Some(i) => {
                proof {
                    lemma_assoc_unique_match(self.chunks@, coords, i as int);
                }
                if self.chunks[i].1.generation != result.generation {
                    return IntegrationOutcome::Stale;
                }
                let handle = match assoc_find(&self.chunk_handle_map, coords) {
                    Some(j) => self.chunk_handle_map[j].1,
                    None => {
                        proof {
                            assert(assoc_has(self.chunk_handle_map@, self.chunks@[i as int].0));
                            assert(false);
                        }
                        vstd::pervasive::unreached()
                    },
                };
                proof {
                    lemma_assoc_unique_match(
                        self.chunk_handle_map@,
                        coords,
                        assoc_index(self.chunk_handle_map@, coords),
                    );
                }
                self.restate_entry(coords, i, MeshState::Meshed, result.generation);
                IntegrationOutcome::Applied(handle)
            },
        }
    }

    /// The meshing state of the chunk at `coords`, if one is loaded.
    pub fn mesh_state_of(&self, coords: ChunkCoords) -> (r: Option<MeshState>)
        ensures
            match r {
                Some(s) => self.chunk_map().dom().contains(coords) && s == self.chunk_map()[coords].mesh_state,
                None => !self.chunk_map().dom().contains(coords),
            },
    {
        match assoc_find(&self.chunks, coords) {
            Some(i) => Some(self.chunks[i].1.mesh_state),
            None => None,
        }
    }

    /// The generation stamp of the chunk at `coords`, if one is loaded.
    pub fn generation_of(&self, coords: ChunkCoords) -> (r: Option<u64>)
        ensures
            match r {
                Some(g) => self.chunk_map().dom().contains(coords) && g == self.chunk_map()[coords].generation,
                None => !self.chunk_map().dom().contains(coords),
            },
    {
        match assoc_find(&self.chunks, coords) {
            Some(i) => Some(self.chunks[i].1.generation),
            None => None,
        }
    }
}

} // verus!
