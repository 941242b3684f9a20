//! A chunk: a dense cubic region of optional block identifiers.

use vstd::prelude::*;
use crate::coords::{BLOCKS_COUNT, InnerChunkCoords};

verus! {

/// Identifier of a block type. Air (no block) is the absence of a value,
/// never a sentinel identifier.
pub type BlockId = u32;

/// A cubic region of `BLOCKS_COUNT` cells, each holding an optional block.
/// The backing array never resizes: a chunk always represents exactly one
/// region of `CHUNK_SIZE` cubed blocks.
#[derive(Debug)]
pub struct Chunk {
    blocks: Vec<Option<BlockId>>,
}

impl View for Chunk {
    type V = Seq<Option<BlockId>>;

    closed spec fn view(&self) -> Seq<Option<BlockId>> {
        self.blocks@
    }
}

impl Chunk {
    /// The backing array holds exactly one cell per block position.
    pub open spec fn wf(self) -> bool {
        self@.len() == BLOCKS_COUNT
    }

    /// An empty chunk: every cell is air.
    pub fn new() -> (c: Chunk)
        ensures
            c.wf(),
            forall|i: int| 0 <= i < BLOCKS_COUNT ==> c@[i] is None,
    {
        let mut blocks: Vec<Option<BlockId>> = Vec::new();
        let mut n: usize = 0;
        while n < BLOCKS_COUNT
            invariant
                n <= BLOCKS_COUNT,
                blocks@.len() == n,
                forall|i: int| 0 <= i < n ==> blocks@[i] is None,
            decreases BLOCKS_COUNT - n,
        {
            blocks.push(None);
            n = n + 1;
        }
        Chunk { blocks }
    }

    /// The block stored at `coords`, or nothing for air.
    pub fn get_block(&self, coords: InnerChunkCoords) -> (b: Option<BlockId>)
        requires
            self.wf(),
            coords.wf(),
        ensures
            b == self@[coords.idx()],
    {
        self.blocks[coords.as_idx()]
    }

    /// Store `block` (or air) at `coords`.
    pub fn set_block(&mut self, coords: InnerChunkCoords, block: Option<BlockId>)
        requires
            old(self).wf(),
            coords.wf(),
        ensures
            final(self).wf(),
            final(self)@ == old(self)@.update(coords.idx(), block),
    {
        let i = coords.as_idx();
        self.blocks.set(i, block);
    }

    /// A copy of this chunk with the same contents, for snapshotting across
    /// the meshing boundary.
    pub fn duplicate(&self) -> (c: Chunk)
        requires
            self.wf(),
        ensures
            c.wf(),
            c@ == self@,
    {
        let mut blocks: Vec<Option<BlockId>> = Vec::new();
        let mut n: usize = 0;
        while n < self.blocks.len()
            invariant
                n <= self.blocks.len(),
                self.wf(),
                self@.len() == self.blocks@.len(),
                blocks@.len() == n,
                forall|i: int| 0 <= i < n ==> blocks@[i] == self@[i],
            decreases self.blocks.len() - n,
        {
            blocks.push(self.blocks[n]);
            n = n + 1;
        }
        let c = Chunk { blocks };
        proof {
            assert(c@ =~= self@);
        }
        c
    }
}

} // verus!
