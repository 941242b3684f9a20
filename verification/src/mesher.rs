//! Face visibility and geometry emission for one chunk.
//!
//! Given a snapshot of a target chunk and its six face-adjacent neighbors,
//! the visibility pass decides, per block and per face, whether that face is
//! surface-exposed; the emission pass turns every exposed face into one quad.

use vstd::prelude::*;
use crate::chunk::{BlockId, Chunk};
use crate::coords::{
    BLOCKS_COUNT, CHUNK_SIZE, ChunkCoords, FaceDirection, InnerChunkCoords, flat_idx, idx_x,
    idx_y, idx_z, in_chunk,
};
use crate::loader::ResourceDictionary;
use crate::model::{ModelConstructor, Transform, Vertex, face_quad};

verus! {

/// Whether cell `i` of a chunk's block array holds a block.
pub open spec fn cell_occupied(c: Seq<Option<BlockId>>, i: int) -> bool {
    c[i] is Some
}

/// An axis value one step outside the chunk, folded onto the boundary cell
/// of the adjacent chunk; an in-range value is unchanged.
pub open spec fn wrapped(v: int) -> int {
    if v < 0 {
        (CHUNK_SIZE - 1) as int
    } else if v >= CHUNK_SIZE as int {
        0
    } else {
        v
    }
}

/// An immutable snapshot handed to the mesher: the target chunk, up to six
/// neighbor chunks (indexed by `FaceDirection` iteration order), and the
/// generation of the target chunk at snapshot time. Snapshots are
/// self-contained copies so the worker never observes concurrent edits.
#[derive(Debug)]
pub struct MeshChunkRequest {
    pub requested_coords: ChunkCoords,
    pub requested_chunk: Chunk,
    pub adjacent_chunks: Vec<Option<Chunk>>,
    pub generation: u64,
}

impl MeshChunkRequest {
    pub open spec fn wf(self) -> bool {
        &&& self.requested_chunk.wf()
        &&& self.adjacent_chunks@.len() == 6
        &&& forall|f: int|
            0 <= f < 6 ==> (#[trigger] self.adjacent_chunks@[f] matches Some(c) ==> c.wf())
    }
}

/// Whether the face `d` of the block at cell `(x, y, z)` of the target chunk
/// is exposed: the cell holds a block and the face's neighbor cell is empty.
/// A neighbor cell beyond the chunk boundary is looked up, wrapped, in the
/// adjacent chunk snapshot for `d`; when that snapshot is absent the face
/// counts as enclosed — a deliberate policy, not an omission.
pub open spec fn face_visible(req: MeshChunkRequest, x: int, y: int, z: int, d: FaceDirection) -> bool {
    let (dx, dy, dz) = d.spec_offset();
    let nx = x + dx;
    let ny = y + dy;
    let nz = z + dz;
    &&& cell_occupied(req.requested_chunk@, flat_idx(x, y, z))
    &&& if in_chunk(nx, ny, nz) {
        !cell_occupied(req.requested_chunk@, flat_idx(nx, ny, nz))
    } else {
        match req.adjacent_chunks@[d.spec_index()] {
            Some(nc) => !cell_occupied(nc@, flat_idx(wrapped(nx), wrapped(ny), wrapped(nz))),
            None => false,
        }
    }
}

/// Per-block, per-face visibility flags for one chunk, stored flat: the flag
/// for face `f` of the block at flat index `i` sits at `i * 6 + f`.
#[derive(Debug)]
pub struct FaceVisibilityMap {
    flags: Vec<bool>,
}

impl FaceVisibilityMap {
    pub closed spec fn spec_flags(self) -> Seq<bool> {
        self.flags@
    }

    pub open spec fn wf(self) -> bool {
        self.spec_flags().len() == 6 * BLOCKS_COUNT
    }

    /// The flag for face `f` of the block at flat index `i`.
    pub open spec fn spec_face(self, i: int, f: int) -> bool {
        self.spec_flags()[i * 6 + f]
    }

    /// Read the flag for face `face` of the block at flat index `idx`.
    pub fn face(&self, idx: usize, face: usize) -> (b: bool)
        requires
            self.wf(),
            idx < BLOCKS_COUNT,
            face < 6,
        ensures
            b == self.spec_face(idx as int, face as int),
    {
        self.flags[idx * 6 + face]
    }
}

/// An axis value one step outside the chunk, folded onto the boundary cell
/// of the adjacent chunk.
fn wrap(v: i32) -> (r: i32)
    requires
        -1 <= v <= CHUNK_SIZE,
    ensures
        r as int == wrapped(v as int),
{
    if v < 0 {
        CHUNK_SIZE - 1
    } else if v >= CHUNK_SIZE {
        0
    } else {
        v
    }
}

/// Decide visibility of one face of one block, resolving the neighbor cell
/// inside the target chunk or, across the boundary, in the adjacent snapshot.
fn face_visible_at(request: &MeshChunkRequest, coords: InnerChunkCoords, d: FaceDirection) -> (b: bool)
    requires
        request.wf(),
        coords.wf(),
    ensures
        b == face_visible(*request, coords.spec_x(), coords.spec_y(), coords.spec_z(), d),
{
    if request.requested_chunk.get_block(coords).is_none() {
        return false;
    }

    let o = d.offset();
    let nx = coords.x() + o.0;
    let ny = coords.y() + o.1;
    let nz = coords.z() + o.2;

    if InnerChunkCoords::in_bounds(nx, ny, nz) {
        request.requested_chunk.get_block(InnerChunkCoords::new(nx, ny, nz)).is_none()
    } else {
        let f = d.index();
        match &request.adjacent_chunks[f] {
            None => false,
            Some(neighbor) => {
                let wc = InnerChunkCoords::new(wrap(nx), wrap(ny), wrap(nz));
                neighbor.get_block(wc).is_none()
            },
        }
    }
}

/// Compute the visibility flag of every face of every block of the target
/// chunk, in flat-index order.
pub fn generate_visibility_map(request: &MeshChunkRequest) -> (vm: FaceVisibilityMap)
    requires
        request.wf(),
    ensures
        vm.wf(),
        forall|i: int, f: int|
            0 <= i < BLOCKS_COUNT && 0 <= f < 6 ==> vm.spec_face(i, f) == face_visible(
                *request,
                idx_x(i),
                idx_y(i),
                idx_z(i),
                FaceDirection::spec_from_index(f),
            ),
{
    let mut flags: Vec<bool> = Vec::new();
    let mut idx: usize = 0;
    while idx < BLOCKS_COUNT
        invariant
            request.wf(),
            idx <= BLOCKS_COUNT,
            flags@.len() == idx * 6,
            forall|i: int, f: int|
                0 <= i < idx && 0 <= f < 6 ==> flags@[i * 6 + f] == face_visible(
                    *request,
                    idx_x(i),
                    idx_y(i),
                    idx_z(i),
                    FaceDirection::spec_from_index(f),
                ),
        decreases BLOCKS_COUNT - idx,
    {
        let coords = InnerChunkCoords::from_idx(idx);
        let mut face: usize = 0;
        while face < 6
            invariant
                request.wf(),
                idx < BLOCKS_COUNT,
                face <= 6,
                coords.wf(),
                coords.spec_x() == idx_x(idx as int),
                coords.spec_y() == idx_y(idx as int),
                coords.spec_z() == idx_z(idx as int),
                flags@.len() == idx * 6 + face,
                forall|i: int, f: int|
                    0 <= i < idx && 0 <= f < 6 ==> flags@[i * 6 + f] == face_visible(
                        *request,
                        idx_x(i),
                        idx_y(i),
                        idx_z(i),
                        FaceDirection::spec_from_index(f),
                    ),
                forall|f: int|
                    0 <= f < face ==> flags@[idx * 6 + f] == face_visible(
                        *request,
                        idx_x(idx as int),
                        idx_y(idx as int),
                        idx_z(idx as int),
                        FaceDirection::spec_from_index(f),
                    ),
            decreases 6 - face,
        {
            let d = FaceDirection::from_index(face);
            let b = face_visible_at(request, coords, d);
            flags.push(b);
            face = face + 1;
        }
        idx = idx + 1;
    }
    FaceVisibilityMap { flags }
}

/// Whether emission slot `k` — face `k % 6` of the block at flat index
/// `k / 6` — emits a quad.
pub open spec fn slot_visible(req: MeshChunkRequest, k: int) -> bool {
    face_visible(req, idx_x(k / 6), idx_y(k / 6), idx_z(k / 6), FaceDirection::spec_from_index(k % 6))
}

/// The visible slots among `[0, n)`, in emission order.
pub open spec fn visible_slots_upto(req: MeshChunkRequest, n: int) -> Seq<int>
    decreases n,
{
    if n <= 0 {
        Seq::empty()
    } else if slot_visible(req, n - 1) {
        visible_slots_upto(req, n - 1).push(n - 1)
    } else {
        visible_slots_upto(req, n - 1)
    }
}

/// Every visible slot of the whole chunk, in emission order.
pub open spec fn visible_slots(req: MeshChunkRequest) -> Seq<int> {
    visible_slots_upto(req, 6 * BLOCKS_COUNT)
}

/// How many block faces of the chunk are visible.
pub open spec fn visible_face_count(req: MeshChunkRequest) -> int {
    visible_slots(req).len() as int
}

pub proof fn lemma_visible_slots_upto_len_monotonic(req: MeshChunkRequest, a: int, b: int)
    requires
        a <= b,
    ensures
        visible_slots_upto(req, a).len() <= visible_slots_upto(req, b).len(),
    decreases b - a,
{
    if a < b {
        lemma_visible_slots_upto_len_monotonic(req, a, b - 1);
    }
}

/// Identifier of the block emitting at slot `k`.
pub open spec fn slot_block_id(req: MeshChunkRequest, k: int) -> BlockId {
    req.requested_chunk@[k / 6].unwrap()
}

/// Whether every block stored in the target chunk has a definition in `dict`.
/// The material lookup is assumed total over the ids present in loaded
/// chunks; meshing a chunk that stores an undefined id is a logic error
/// upstream.
pub open spec fn ids_covered(req: MeshChunkRequest, dict: ResourceDictionary) -> bool {
    forall|i: int|
        0 <= i < BLOCKS_COUNT && #[trigger] req.requested_chunk@[i] is Some
            ==> req.requested_chunk@[i].unwrap() < dict@.len()
}

/// The quad emitted at slot `k`: the face quad of the slot's block and
/// direction, colored from the block's definition.
pub open spec fn slot_quad(req: MeshChunkRequest, dict: ResourceDictionary, k: int) -> Seq<Vertex> {
    face_quad(
        idx_x(k / 6),
        idx_y(k / 6),
        idx_z(k / 6),
        FaceDirection::spec_from_index(k % 6),
        dict@[slot_block_id(req, k) as int].color,
    )
}

/// Everything meshing promises of its output `mc`: well-formed geometry with
/// four vertices and six indices per visible face, the chunk's translation,
/// and, per visible slot in emission order, exactly that slot's quad.
/// Together with the well-formedness index pattern this pins the output
/// completely, so meshing is a function of the snapshot and the dictionary.
pub open spec fn meshed_geometry(
    req: MeshChunkRequest,
    dict: ResourceDictionary,
    mc: ModelConstructor,
) -> bool {
    &&& mc.wf()
    &&& mc.transform.translation.x as int == req.requested_coords.x as int * (CHUNK_SIZE as int)
    &&& mc.transform.translation.y as int == req.requested_coords.y as int * (CHUNK_SIZE as int)
    &&& mc.transform.translation.z as int == req.requested_coords.z as int * (CHUNK_SIZE as int)
    &&& mc.vertices@.len() == 4 * visible_face_count(req)
    &&& mc.indices@.len() == 6 * visible_face_count(req)
    &&& forall|j: int|
        0 <= j < visible_face_count(req) ==> #[trigger] mc.vertices@.subrange(4 * j, 4 * j + 4)
            == slot_quad(req, dict, visible_slots(req)[j])
}

/// Mesh one chunk snapshot: emit a quad for every visible face, in
/// flat-index then face order, and place the result at the chunk's
/// world-space translation.
///
/// The face-count bound keeps every index value within the range of a
/// 16-bit index buffer.
pub fn mesh_chunk(request: &MeshChunkRequest, resource_dictionary: &ResourceDictionary) -> (mc: ModelConstructor)
    requires
        request.wf(),
        ids_covered(*request, *resource_dictionary),
        visible_face_count(*request) <= 16384,
        i32::MIN <= request.requested_coords.x * CHUNK_SIZE <= i32::MAX,
        i32::MIN <= request.requested_coords.y * CHUNK_SIZE <= i32::MAX,
        i32::MIN <= request.requested_coords.z * CHUNK_SIZE <= i32::MAX,
    ensures
        meshed_geometry(*request, *resource_dictionary, mc),
{
    let mut mc = ModelConstructor::new();
    mc.transform = Transform { translation: request.requested_coords.as_translation() };

    let vm = generate_visibility_map(request);

    let mut k: usize = 0;
    while k < 6 * BLOCKS_COUNT
        invariant
            request.wf(),
            ids_covered(*request, *resource_dictionary),
            visible_face_count(*request) <= 16384,
            k <= 6 * BLOCKS_COUNT,
            vm.wf(),
            forall|i: int, f: int|
                0 <= i < BLOCKS_COUNT && 0 <= f < 6 ==> vm.spec_face(i, f) == face_visible(
                    *request,
                    idx_x(i),
                    idx_y(i),
                    idx_z(i),
                    FaceDirection::spec_from_index(f),
                ),
            mc.wf(),
            mc.transform.translation.x == request.requested_coords.x * CHUNK_SIZE,
            mc.transform.translation.y == request.requested_coords.y * CHUNK_SIZE,
            mc.transform.translation.z == request.requested_coords.z * CHUNK_SIZE,
            mc.vertices@.len() == 4 * visible_slots_upto(*request, k as int).len(),
            mc.indices@.len() == 6 * visible_slots_upto(*request, k as int).len(),
            forall|j: int|
                0 <= j < visible_slots_upto(*request, k as int).len()
                    ==> #[trigger] mc.vertices@.subrange(4 * j, 4 * j + 4) == slot_quad(
                    *request,
                    *resource_dictionary,
                    visible_slots_upto(*request, k as int)[j],
                ),
        decreases 6 * BLOCKS_COUNT - k,
    {
        let idx = k / 6;
        let face = k % 6;
        proof {
            assert(idx as int == k as int / 6 && face as int == k as int % 6 && idx < BLOCKS_COUNT)
                by (nonlinear_arith)
                requires
                    idx == k / 6,
                    face == k % 6,
                    k < 6 * BLOCKS_COUNT,
                    BLOCKS_COUNT == 32768,
            ;
        }
        let ghost prev_slots = visible_slots_upto(*request, k as int);

        if vm.face(idx, face) {
            let coords = InnerChunkCoords::from_idx(idx);
            let d = FaceDirection::from_index(face);
            assert(slot_visible(*request, k as int));
            let block = match request.requested_chunk.get_block(coords) {
                Some(b) => b,
                None => {
                    proof {
                        assert(false);
                    }
                    vstd::pervasive::unreached()
                },
            };
            let color = resource_dictionary.get_block_data_from_id(block).color;

            proof {
                assert(visible_slots_upto(*request, k as int + 1) =~= prev_slots.push(k as int));
                lemma_visible_slots_upto_len_monotonic(
                    *request,
                    k as int + 1,
                    6 * BLOCKS_COUNT as int,
                );
            }
            let ghost old_vertices = mc.vertices@;
            mc.add_block_face(coords, d, color);
            proof {
                let slots = visible_slots_upto(*request, k as int + 1);
                assert(mc.vertices@.subrange(0, old_vertices.len() as int) =~= old_vertices);
                assert forall|j: int| 0 <= j < slots.len() implies #[trigger] mc.vertices@
                    .subrange(4 * j, 4 * j + 4) == slot_quad(
                    *request,
                    *resource_dictionary,
                    slots[j],
                ) by {
                    if j < prev_slots.len() {
                        assert(slots[j] == prev_slots[j]);
                        assert(mc.vertices@.subrange(4 * j, 4 * j + 4) =~= old_vertices.subrange(
                            4 * j,
                            4 * j + 4,
                        ));
                    } else {
                        assert(j == prev_slots.len() && slots[j] == k as int);
                        assert(mc.vertices@.subrange(4 * j, 4 * j + 4) =~= face_quad(
                            coords.spec_x(),
                            coords.spec_y(),
                            coords.spec_z(),
                            d,
                            color,
                        ));
                    }
                }
            }
        } else {
            proof {
                assert(!slot_visible(*request, k as int));
                assert(visible_slots_upto(*request, k as int + 1) =~= prev_slots);
            }
        }
        k = k + 1;
    }
    mc
}

/// The neighbor cell of face `d` of `(x, y, z)` lies within the same chunk
/// and holds a block.
pub open spec fn neighbor_within_occupied(
    req: MeshChunkRequest,
    x: int,
    y: int,
    z: int,
    d: FaceDirection,
) -> bool {
    let (dx, dy, dz) = d.spec_offset();
    &&& in_chunk(x + dx, y + dy, z + dz)
    &&& cell_occupied(req.requested_chunk@, flat_idx(x + dx, y + dy, z + dz))
}

/// The neighbor cell of face `d` of `(x, y, z)` lies within the same chunk
/// and is empty.
pub open spec fn neighbor_within_empty(
    req: MeshChunkRequest,
    x: int,
    y: int,
    z: int,
    d: FaceDirection,
) -> bool {
    let (dx, dy, dz) = d.spec_offset();
    &&& in_chunk(x + dx, y + dy, z + dz)
    &&& !cell_occupied(req.requested_chunk@, flat_idx(x + dx, y + dy, z + dz))
}

/// Interior visibility: a block fully surrounded by six occupied neighbor
/// cells, all within the same chunk, has every face enclosed.
pub proof fn lemma_interior_block_enclosed(req: MeshChunkRequest, x: int, y: int, z: int)
    requires
        forall|d: FaceDirection| #[trigger] neighbor_within_occupied(req, x, y, z, d),
    ensures
        forall|d: FaceDirection| !face_visible(req, x, y, z, d),
{
    assert forall|d: FaceDirection| !face_visible(req, x, y, z, d) by {
        assert(neighbor_within_occupied(req, x, y, z, d));
    }
}

/// Exposed visibility: a block whose neighbor cell on face `d` lies within
/// the same chunk and is empty has that face visible. In particular an
/// isolated block away from the chunk boundary has all six faces visible.
pub proof fn lemma_exposed_face_visible(
    req: MeshChunkRequest,
    x: int,
    y: int,
    z: int,
    d: FaceDirection,
)
    requires
        cell_occupied(req.requested_chunk@, flat_idx(x, y, z)),
        neighbor_within_empty(req, x, y, z, d),
    ensures
        face_visible(req, x, y, z, d),
{
}

/// An isolated block away from the chunk boundary — every neighbor cell
/// inside the same chunk and empty — has all six faces visible.
pub proof fn lemma_isolated_block_all_faces_visible(
    req: MeshChunkRequest,
    x: int,
    y: int,
    z: int,
)
    requires
        cell_occupied(req.requested_chunk@, flat_idx(x, y, z)),
        forall|d: FaceDirection| #[trigger] neighbor_within_empty(req, x, y, z, d),
    ensures
        forall|d: FaceDirection| face_visible(req, x, y, z, d),
{
    assert forall|d: FaceDirection| face_visible(req, x, y, z, d) by {
        assert(neighbor_within_empty(req, x, y, z, d));
        lemma_exposed_face_visible(req, x, y, z, d);
    }
}

/// Boundary stitching: a block at the positive-x boundary has its `+X` face
/// visible exactly when the `+X` neighbor snapshot is present with an empty
/// cell at the wrapped position `(0, y, z)`; in particular, with that
/// snapshot absent the face is enclosed.
pub proof fn lemma_boundary_stitching_pos_x(req: MeshChunkRequest, y: int, z: int)
    requires
        0 <= y < CHUNK_SIZE as int,
        0 <= z < CHUNK_SIZE as int,
        cell_occupied(req.requested_chunk@, flat_idx(CHUNK_SIZE as int - 1, y, z)),
    ensures
        face_visible(req, CHUNK_SIZE as int - 1, y, z, FaceDirection::PosX) == (
        req.adjacent_chunks@[0] matches Some(nc) && !cell_occupied(nc@, flat_idx(0, y, z))),
{
}

/// Empty chunk: a chunk that stores no block emits nothing — no slot is
/// visible below `n`.
pub proof fn lemma_empty_chunk_no_slots(req: MeshChunkRequest, n: int)
    requires
        forall|i: int| 0 <= i < BLOCKS_COUNT ==> #[trigger] req.requested_chunk@[i] is None,
        n <= 6 * BLOCKS_COUNT,
    ensures
        visible_slots_upto(req, n) =~= Seq::<int>::empty(),
    decreases n,
{
    if n > 0 {
        lemma_empty_chunk_no_slots(req, n - 1);
        assert(0 <= (n - 1) / 6 < BLOCKS_COUNT) by (nonlinear_arith)
            requires
                0 < n <= 6 * BLOCKS_COUNT,
                BLOCKS_COUNT == 32768,
        ;
        assert(!slot_visible(req, n - 1));
    }
}

/// Geometry invariant: for any meshed chunk, the index count is six per
/// visible face, the vertex count four per visible face, and every index
/// value references a valid vertex position.
pub proof fn lemma_geometry_invariant(
    req: MeshChunkRequest,
    dict: ResourceDictionary,
    mc: ModelConstructor,
)
    requires
        meshed_geometry(req, dict, mc),
    ensures
        mc.indices@.len() == 6 * visible_face_count(req),
        mc.vertices@.len() == 4 * visible_face_count(req),
        forall|i: int|
            0 <= i < mc.indices@.len() ==> (mc.indices@[i] as int) < mc.vertices@.len(),
{
    mc.lemma_indices_reference_vertices();
}

/// Idempotence: meshing is a function of the snapshot and the dictionary —
/// any two outputs for the same request hold identical vertices, indices
/// and transform.
pub proof fn lemma_mesh_deterministic(
    req: MeshChunkRequest,
    dict: ResourceDictionary,
    a: ModelConstructor,
    b: ModelConstructor,
)
    requires
        meshed_geometry(req, dict, a),
        meshed_geometry(req, dict, b),
    ensures
        a.vertices@ == b.vertices@,
        a.indices@ == b.indices@,
        a.transform == b.transform,
{
    assert forall|v: int| 0 <= v < a.vertices@.len() implies a.vertices@[v] == b.vertices@[v] by {
        let j = v / 4;
        let r = v % 4;
        assert(0 <= j < visible_face_count(req) && 0 <= r < 4 && v == 4 * j + r)
            by (nonlinear_arith)
            requires
                j == v / 4,
                r == v % 4,
                0 <= v < a.vertices@.len(),
                a.vertices@.len() == 4 * visible_face_count(req),
        ;
        assert(a.vertices@.subrange(4 * j, 4 * j + 4) == slot_quad(req, dict, visible_slots(req)[j]));
        assert(b.vertices@.subrange(4 * j, 4 * j + 4) == slot_quad(req, dict, visible_slots(req)[j]));
        assert(a.vertices@[v] == a.vertices@.subrange(4 * j, 4 * j + 4)[r]);
        assert(b.vertices@[v] == b.vertices@.subrange(4 * j, 4 * j + 4)[r]);
    }
    assert(a.vertices@ =~= b.vertices@);
    assert forall|i: int| 0 <= i < a.indices@.len() implies a.indices@[i] == b.indices@[i] by {
        assert(a.indices@[i] == crate::model::index_at(i));
        assert(b.indices@[i] == crate::model::index_at(i));
    }
    assert(a.indices@ =~= b.indices@);
    assert(a.transform.translation.x == b.transform.translation.x);
    assert(a.transform.translation.y == b.transform.translation.y);
    assert(a.transform.translation.z == b.transform.translation.z);
}

/// The finished geometry of one chunk, tagged with the chunk's coordinates
/// (results are routed by these, never by arrival order) and the generation
/// of the snapshot it was meshed from.
#[derive(Debug)]
pub struct ConstructedChunk {
    pub coords: ChunkCoords,
    pub model_constructor: ModelConstructor,
    pub generation: u64,
}

/// The worker's whole step for one request: run the visibility analysis and
/// the geometry emission, and tag the result for routing.
pub fn process_request(
    request: &MeshChunkRequest,
    resource_dictionary: &ResourceDictionary,
) -> (done: ConstructedChunk)
    requires
        request.wf(),
        ids_covered(*request, *resource_dictionary),
        visible_face_count(*request) <= 16384,
        i32::MIN <= request.requested_coords.x * CHUNK_SIZE <= i32::MAX,
        i32::MIN <= request.requested_coords.y * CHUNK_SIZE <= i32::MAX,
        i32::MIN <= request.requested_coords.z * CHUNK_SIZE <= i32::MAX,
    ensures
        done.coords == request.requested_coords,
        done.generation == request.generation,
        meshed_geometry(*request, *resource_dictionary, done.model_constructor),
{
    let model_constructor = mesh_chunk(request, resource_dictionary);
    ConstructedChunk {
        coords: request.requested_coords,
        model_constructor,
        generation: request.generation,
    }
}

/// The worker's step for one request, with the meshing preconditions
/// checked at run time: hands back nothing when a stored block id has no
/// definition in the dictionary or when the visible face count exceeds what
/// a 16-bit index buffer can address.
pub fn try_process_request(
    request: &MeshChunkRequest,
    resource_dictionary: &ResourceDictionary,
) -> (r: Option<ConstructedChunk>)
    requires
        request.wf(),
        i32::MIN <= request.requested_coords.x * CHUNK_SIZE <= i32::MAX,
        i32::MIN <= request.requested_coords.y * CHUNK_SIZE <= i32::MAX,
        i32::MIN <= request.requested_coords.z * CHUNK_SIZE <= i32::MAX,
    ensures
        match r {
            Some(done) => {
                &&& ids_covered(*request, *resource_dictionary)
                &&& visible_face_count(*request) <= 16384
                &&& done.coords == request.requested_coords
                &&& done.generation == request.generation
                &&& meshed_geometry(*request, *resource_dictionary, done.model_constructor)
            },
            None => !ids_covered(*request, *resource_dictionary) || visible_face_count(*request)
                > 16384,
        },
{
    let dictionary_len = resource_dictionary.len();
    let mut idx: usize = 0;
    while idx < BLOCKS_COUNT
        invariant
            request.wf(),
            idx <= BLOCKS_COUNT,
            dictionary_len == resource_dictionary@.len(),
            forall|i: int|
                0 <= i < idx && #[trigger] request.requested_chunk@[i] is Some
                    ==> request.requested_chunk@[i].unwrap() < dictionary_len,
        decreases BLOCKS_COUNT - idx,
    {
        let coords = InnerChunkCoords::from_idx(idx);
        if let Some(id) = request.requested_chunk.get_block(coords) {
            if id as usize >= dictionary_len {
                proof {
                    assert(request.requested_chunk@[idx as int] is Some);
                    assert(!ids_covered(*request, *resource_dictionary));
                }
                return None;
            }
        }
        idx = idx + 1;
    }

    let vm = generate_visibility_map(request);
    let mut visible: usize = 0;
    let mut k: usize = 0;
    while k < 6 * BLOCKS_COUNT
        invariant
            request.wf(),
            k <= 6 * BLOCKS_COUNT,
            vm.wf(),
            forall|i: int, f: int|
                0 <= i < BLOCKS_COUNT && 0 <= f < 6 ==> vm.spec_face(i, f) == face_visible(
                    *request,
                    idx_x(i),
                    idx_y(i),
                    idx_z(i),
                    FaceDirection::spec_from_index(f),
                ),
            visible == visible_slots_upto(*request, k as int).len(),
            visible <= k,
        decreases 6 * BLOCKS_COUNT - k,
    {
        let idx = k / 6;
        let face = k % 6;
        proof {
            assert(idx as int == k as int / 6 && face as int == k as int % 6 && idx < BLOCKS_COUNT)
                by (nonlinear_arith)
                requires
                    idx == k / 6,
                    face == k % 6,
                    k < 6 * BLOCKS_COUNT,
                    BLOCKS_COUNT == 32768,
            ;
        }
        if vm.face(idx, face) {
            visible = visible + 1;
        }
        k = k + 1;
    }

    if visible <= 16384 {
        Some(process_request(request, resource_dictionary))
    } else {
        None
    }
}

} // verus!
