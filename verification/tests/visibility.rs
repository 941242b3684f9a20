use landmark_client::chunk::Chunk;
use landmark_client::coords::{ChunkCoords, FaceDirection, InnerChunkCoords};
use landmark_client::mesher::{MeshChunkRequest, generate_visibility_map};

fn empty_neighbors() -> Vec<Option<Chunk>> {
    vec![None, None, None, None, None, None]
}

fn request(chunk: Chunk, adjacent: Vec<Option<Chunk>>) -> MeshChunkRequest {
    MeshChunkRequest {
        requested_coords: ChunkCoords::new(0, 0, 0),
        requested_chunk: chunk,
        adjacent_chunks: adjacent,
        generation: 0,
    }
}

fn solid_chunk() -> Chunk {
    let mut c = Chunk::new();
    for z in 0..32 {
        for y in 0..32 {
            for x in 0..32 {
                c.set_block(InnerChunkCoords::new(x, y, z), Some(1));
            }
        }
    }
    c
}

#[test]
fn empty_chunk_visibility_all_false() {
    let req = request(Chunk::new(), empty_neighbors());
    let vm = generate_visibility_map(&req);
    for idx in 0..32768 {
        for face in 0..6 {
            assert!(!vm.face(idx, face));
        }
    }
}

#[test]
fn interior_block_fully_surrounded_is_enclosed() {
    // A block with six occupied neighbor cells has all six flags false.
    let mut c = Chunk::new();
    let center = InnerChunkCoords::new(10, 10, 10);
    c.set_block(center, Some(1));
    for face in 0..6 {
        let (dx, dy, dz) = FaceDirection::from_index(face).offset();
        c.set_block(InnerChunkCoords::new(10 + dx, 10 + dy, 10 + dz), Some(2));
    }
    let idx = center.as_idx();
    let req = request(c, empty_neighbors());
    let vm = generate_visibility_map(&req);
    for face in 0..6 {
        assert!(!vm.face(idx, face));
    }
}

#[test]
fn exposed_face_is_visible() {
    // Occupy the center and five of its six neighbor cells: only the face
    // toward the empty cell is visible.
    let mut c = Chunk::new();
    let center = InnerChunkCoords::new(10, 10, 10);
    c.set_block(center, Some(1));
    for face in 1..6 {
        let (dx, dy, dz) = FaceDirection::from_index(face).offset();
        c.set_block(InnerChunkCoords::new(10 + dx, 10 + dy, 10 + dz), Some(2));
    }
    let req = request(c, empty_neighbors());
    let vm = generate_visibility_map(&req);
    assert!(vm.face(center.as_idx(), 0)); // +X neighbor cell left empty
    for face in 1..6 {
        assert!(!vm.face(center.as_idx(), face));
    }
}

#[test]
fn isolated_interior_block_has_all_faces_visible() {
    let mut c = Chunk::new();
    let center = InnerChunkCoords::new(16, 16, 16);
    c.set_block(center, Some(3));
    let req = request(c, empty_neighbors());
    let vm = generate_visibility_map(&req);
    for face in 0..6 {
        assert!(vm.face(center.as_idx(), face));
    }
}

#[test]
fn boundary_face_with_empty_neighbor_cell_is_visible() {
    // A block at x = 31 with an empty (0, y, z) cell in the +X-adjacent
    // snapshot has its +X face visible.
    let mut c = Chunk::new();
    let edge = InnerChunkCoords::new(31, 5, 5);
    c.set_block(edge, Some(1));
    let mut adjacent = empty_neighbors();
    adjacent[0] = Some(Chunk::new()); // +X neighbor present, all air
    let req = request(c, adjacent);
    let vm = generate_visibility_map(&req);
    assert!(vm.face(edge.as_idx(), 0));
}

#[test]
fn boundary_face_with_absent_neighbor_is_enclosed() {
    // The same block with the +X neighbor snapshot absent: the face is
    // conservatively treated as enclosed.
    let mut c = Chunk::new();
    let edge = InnerChunkCoords::new(31, 5, 5);
    c.set_block(edge, Some(1));
    let req = request(c, empty_neighbors());
    let vm = generate_visibility_map(&req);
    assert!(!vm.face(edge.as_idx(), 0));
}

#[test]
fn boundary_face_with_occupied_neighbor_cell_is_enclosed() {
    let mut c = Chunk::new();
    let edge = InnerChunkCoords::new(31, 5, 5);
    c.set_block(edge, Some(1));
    let mut adjacent = empty_neighbors();
    adjacent[0] = Some(solid_chunk());
    let req = request(c, adjacent);
    let vm = generate_visibility_map(&req);
    assert!(!vm.face(edge.as_idx(), 0));
}

#[test]
fn solid_chunks_share_no_visible_boundary_faces() {
    // Two fully solid chunks side by side: no face on the shared plane is
    // visible from the target chunk.
    let target = solid_chunk();
    let mut adjacent = empty_neighbors();
    adjacent[0] = Some(solid_chunk()); // +X neighbor fully solid
    let req = request(target, adjacent);
    let vm = generate_visibility_map(&req);
    for z in 0..32 {
        for y in 0..32 {
            let idx = InnerChunkCoords::new(31, y, z).as_idx();
            assert!(!vm.face(idx, 0));
        }
    }
}
