//! The dictionary of block definitions: identifiers are assigned by position,
//! in the order the definitions were loaded.
//!
//! Reading definition files from disk is left to the caller; the dictionary
//! itself only owns the loaded data and answers lookups.

use vstd::prelude::*;
use crate::block::BlockData;
use crate::chunk::BlockId;

verus! {

/// Identifier of the block definition named `name`: the position of the last
/// definition carrying that name, or `-1` when no definition does. The last
/// position wins, matching a load that overwrites earlier duplicates.
pub open spec fn spec_block_id(s: Seq<BlockData>, name: Seq<char>) -> int
    decreases s.len(),
{
    if s.len() == 0 {
        -1
    } else if s.last().name@ == name {
        s.len() - 1
    } else {
        spec_block_id(s.drop_last(), name)
    }
}

/// Whether some block definition carries `name`.
pub open spec fn spec_has_name(s: Seq<BlockData>, name: Seq<char>) -> bool {
    exists|i: int| 0 <= i < s.len() && s[i].name@ == name
}

/// When a name is present, its identifier is a valid position, that position
/// carries the name, and no later position does.
pub proof fn lemma_block_id_properties(s: Seq<BlockData>, name: Seq<char>)
    requires
        spec_has_name(s, name),
    ensures
        0 <= spec_block_id(s, name) < s.len(),
        s[spec_block_id(s, name)].name@ == name,
        forall|j: int| spec_block_id(s, name) < j < s.len() ==> s[j].name@ != name,
    decreases s.len(),
{
    if s.last().name@ == name {
    } else {
        let i = choose|i: int| 0 <= i < s.len() && s[i].name@ == name;
        assert(s.drop_last()[i] == s[i]);
        lemma_block_id_properties(s.drop_last(), name);
        assert forall|j: int| spec_block_id(s, name) < j < s.len() implies s[j].name@
            != name by {
            if j < s.len() - 1 {
                assert(s.drop_last()[j] == s[j]);
            }
        }
    }
}

/// Owns every loaded block definition; a `BlockId` is a position in it.
#[derive(Debug)]
pub struct ResourceDictionary {
    blocks: Vec<BlockData>,
}

impl View for ResourceDictionary {
    type V = Seq<BlockData>;

    closed spec fn view(&self) -> Seq<BlockData> {
        self.blocks@
    }
}

impl ResourceDictionary {
    /// Every position fits in a `BlockId`.
    pub open spec fn wf(self) -> bool {
        self@.len() <= u32::MAX
    }

    /// Take ownership of loaded block definitions; the definition at
    /// position `i` gets identifier `i`.
    pub fn new(block_data: Vec<BlockData>) -> (dict: ResourceDictionary)
        requires
            block_data@.len() <= u32::MAX,
        ensures
            dict.wf(),
            dict@ == block_data@,
    {
        ResourceDictionary { blocks: block_data }
    }

    /// How many block definitions were loaded.
    pub fn len(&self) -> (n: usize)
        ensures
            n == self@.len(),
    {
        self.blocks.len()
    }

    /// Identifier of the block definition named `name`. A name that no
    /// definition carries is a logic error upstream, excluded by
    /// precondition.
    pub fn get_block_id(&self, name: &String) -> (id: BlockId)
        requires
            self.wf(),
            spec_has_name(self@, name@),
        ensures
            id == spec_block_id(self@, name@),
            self@[id as int].name@ == name@,
    {
        proof {
            lemma_block_id_properties(self@, name@);
            assert(self@.take(self@.len() as int) =~= self@);
        }
        let mut i: usize = self.blocks.len();
        while i > 0
            invariant
                self.wf(),
                i <= self@.len(),
                spec_has_name(self@, name@),
                spec_block_id(self@, name@) == spec_block_id(self@.take(i as int), name@),
            decreases i,
        {
            i = i - 1;
            let ghost prefix = self@.take(i + 1);
            proof {
                assert(prefix.last() == self@[i as int]);
            }
            if self.blocks[i].name == *name {
                proof {
                    lemma_block_id_properties(self@, name@);
                }
                return i as u32;
            }
            proof {
                assert(prefix.drop_last() =~= self@.take(i as int));
            }
        }
        proof {
            lemma_block_id_properties(self@, name@);
            assert(self@.take(0) =~= Seq::<BlockData>::empty());
            assert(false);
        }
        vstd::pervasive::unreached()
    }

    /// The block definition carrying `name`; the same absence precondition
    /// as `get_block_id`.
    pub fn get_block_data_from_name(&self, name: &String) -> (b: BlockData)
        requires
            self.wf(),
            spec_has_name(self@, name@),
        ensures
            b == self@[spec_block_id(self@, name@)],
    {
        let id = self.get_block_id(name);
        proof {
            lemma_block_id_properties(self@, name@);
        }
        self.get_block_data_from_id(id)
    }

    /// The block definition with identifier `id`. An identifier without a
    /// definition is a logic error upstream, excluded by precondition.
    pub fn get_block_data_from_id(&self, id: BlockId) -> (b: BlockData)
        requires
            id < self@.len(),
        ensures
            b == self@[id as int],
    {
        let entry = &self.blocks[id as usize];
        BlockData { name: entry.name.clone(), color: entry.color }
    }
}

} // verus!
