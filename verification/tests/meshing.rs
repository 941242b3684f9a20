use landmark_client::block::BlockData;
use landmark_client::chunk::Chunk;
use landmark_client::color::Color;
use landmark_client::coords::{ChunkCoords, FaceDirection, InnerChunkCoords};
use landmark_client::loader::ResourceDictionary;
use landmark_client::mesher::{
    MeshChunkRequest, generate_visibility_map, mesh_chunk, process_request, try_process_request,
};
use landmark_client::model::{ModelConstructor, Vertex};

fn dictionary() -> ResourceDictionary {
    ResourceDictionary::new(vec![
        BlockData { name: String::from("stone"), color: Color { r: 10, g: 20, b: 30 } },
        BlockData { name: String::from("grass"), color: Color { r: 40, g: 50, b: 60 } },
    ])
}

fn request(chunk: Chunk) -> MeshChunkRequest {
    MeshChunkRequest {
        requested_coords: ChunkCoords::new(0, 0, 0),
        requested_chunk: chunk,
        adjacent_chunks: vec![None, None, None, None, None, None],
        generation: 0,
    }
}

fn positions(vertices: &[Vertex]) -> Vec<(i32, i32, i32)> {
    vertices.iter().map(|v| (v.position.x, v.position.y, v.position.z)).collect()
}

#[test]
fn empty_chunk_emits_nothing() {
    let mc = mesh_chunk(&request(Chunk::new()), &dictionary());
    assert!(mc.vertices.is_empty());
    assert!(mc.indices.is_empty());
}

#[test]
fn single_block_at_origin_without_neighbors() {
    // Only the three faces whose neighbor cells lie inside the chunk are
    // visible; the three boundary-crossing faces have no neighbor snapshot
    // and are conservatively enclosed.
    let mut c = Chunk::new();
    c.set_block(InnerChunkCoords::new(0, 0, 0), Some(0));
    let req = request(c);

    let vm = generate_visibility_map(&req);
    let idx = InnerChunkCoords::new(0, 0, 0).as_idx();
    assert!(vm.face(idx, FaceDirection::PosX.index()));
    assert!(!vm.face(idx, FaceDirection::NegX.index()));
    assert!(vm.face(idx, FaceDirection::PosY.index()));
    assert!(!vm.face(idx, FaceDirection::NegY.index()));
    assert!(vm.face(idx, FaceDirection::PosZ.index()));
    assert!(!vm.face(idx, FaceDirection::NegZ.index()));

    let mc = mesh_chunk(&req, &dictionary());
    assert_eq!(mc.vertices.len(), 12);
    assert_eq!(mc.indices.len(), 18);
    // Faces are emitted in direction order: +X, +Y, +Z. The block center is
    // (1, 1, 1) in half-block units; each quad corner is one half-unit away.
    assert_eq!(
        positions(&mc.vertices),
        vec![
            (2, 0, 0), (2, 0, 2), (2, 2, 0), (2, 2, 2), // +X face
            (0, 2, 0), (2, 2, 0), (0, 2, 2), (2, 2, 2), // +Y face
            (2, 0, 2), (0, 0, 2), (2, 2, 2), (0, 2, 2), // +Z face
        ]
    );
    assert_eq!(mc.indices, vec![0, 1, 2, 2, 1, 3, 4, 5, 6, 6, 5, 7, 8, 9, 10, 10, 9, 11]);
    for v in &mc.vertices {
        assert_eq!(v.color, Color { r: 10, g: 20, b: 30 });
    }
}

#[test]
fn geometry_counts_match_visible_faces() {
    // An isolated interior block: six visible faces, four vertices and six
    // indices each, and every index value within the vertex count.
    let mut c = Chunk::new();
    c.set_block(InnerChunkCoords::new(16, 16, 16), Some(1));
    let mc = mesh_chunk(&request(c), &dictionary());
    assert_eq!(mc.vertices.len(), 6 * 4);
    assert_eq!(mc.indices.len(), 6 * 6);
    for i in &mc.indices {
        assert!((*i as usize) < mc.vertices.len());
    }
    for v in &mc.vertices {
        assert_eq!(v.color, Color { r: 40, g: 50, b: 60 });
    }
}

#[test]
fn meshing_twice_gives_identical_geometry() {
    let mut c = Chunk::new();
    c.set_block(InnerChunkCoords::new(0, 3, 7), Some(0));
    c.set_block(InnerChunkCoords::new(1, 3, 7), Some(1));
    c.set_block(InnerChunkCoords::new(31, 31, 31), Some(0));
    let req = request(c);
    let dict = dictionary();
    let a = mesh_chunk(&req, &dict);
    let b = mesh_chunk(&req, &dict);
    assert_eq!(a.vertices, b.vertices);
    assert_eq!(a.indices, b.indices);
    assert_eq!(a.transform, b.transform);
}

#[test]
fn transform_is_chunk_translation() {
    let mut req = request(Chunk::new());
    req.requested_coords = ChunkCoords::new(2, 0, -1);
    let mc = mesh_chunk(&req, &dictionary());
    let t = mc.transform.translation;
    assert_eq!((t.x, t.y, t.z), (64, 0, -32));
}

#[test]
fn indices_continue_across_quads() {
    // New quads never restart from zero: indices continue monotonically
    // from the end of the shared buffer.
    let mut mc = ModelConstructor::new();
    let color = Color { r: 1, g: 2, b: 3 };
    mc.add_block_face(InnerChunkCoords::new(0, 0, 0), FaceDirection::PosY, color);
    assert_eq!(mc.indices, vec![0, 1, 2, 2, 1, 3]);
    mc.add_block_face(InnerChunkCoords::new(1, 0, 0), FaceDirection::PosY, color);
    assert_eq!(mc.indices, vec![0, 1, 2, 2, 1, 3, 4, 5, 6, 6, 5, 7]);
    assert_eq!(mc.vertices.len(), 8);
}

#[test]
fn process_request_tags_result() {
    let mut c = Chunk::new();
    c.set_block(InnerChunkCoords::new(4, 4, 4), Some(0));
    let mut req = request(c);
    req.requested_coords = ChunkCoords::new(-3, 1, 2);
    req.generation = 17;
    let done = process_request(&req, &dictionary());
    assert_eq!(done.coords, ChunkCoords::new(-3, 1, 2));
    assert_eq!(done.generation, 17);
    assert_eq!(done.model_constructor.vertices.len(), 24);
}

#[test]
fn try_process_request_checks_its_inputs() {
    // A block id without a definition is rejected.
    let mut c = Chunk::new();
    c.set_block(InnerChunkCoords::new(0, 0, 0), Some(99));
    assert!(try_process_request(&request(c), &dictionary()).is_none());

    // A meshable chunk is processed like process_request.
    let mut c = Chunk::new();
    c.set_block(InnerChunkCoords::new(16, 16, 16), Some(1));
    let done = try_process_request(&request(c), &dictionary()).unwrap();
    assert_eq!(done.model_constructor.vertices.len(), 24);
    assert_eq!(done.coords, ChunkCoords::new(0, 0, 0));

    // A three-dimensional checkerboard exposes more faces than a 16-bit
    // index buffer can address.
    let mut c = Chunk::new();
    for z in 0..32 {
        for y in 0..32 {
            for x in 0..32 {
                if (x + y + z) % 2 == 0 {
                    c.set_block(InnerChunkCoords::new(x, y, z), Some(0));
                }
            }
        }
    }
    assert!(try_process_request(&request(c), &dictionary()).is_none());
}

#[test]
fn solid_boundary_emits_no_shared_faces() {
    // Two fully solid chunks side by side: the target emits no +X faces at
    // the shared plane.
    let mut target = Chunk::new();
    let mut neighbor = Chunk::new();
    for z in 0..32 {
        for y in 0..32 {
            for x in 0..32 {
                target.set_block(InnerChunkCoords::new(x, y, z), Some(0));
                neighbor.set_block(InnerChunkCoords::new(x, y, z), Some(0));
            }
        }
    }
    let mut req = request(target);
    req.adjacent_chunks[0] = Some(neighbor);
    let vm = generate_visibility_map(&req);
    for z in 0..32 {
        for y in 0..32 {
            for x in 0..32 {
                let idx = InnerChunkCoords::new(x, y, z).as_idx();
                for face in 0..6 {
                    assert!(!vm.face(idx, face));
                }
            }
        }
    }
    let mc = mesh_chunk(&req, &dictionary());
    assert!(mc.vertices.is_empty());
    assert!(mc.indices.is_empty());
}
