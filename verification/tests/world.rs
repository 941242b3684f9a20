use landmark_client::block::BlockData;
use landmark_client::chunk::Chunk;
use landmark_client::color::Color;
use landmark_client::coords::{ChunkCoords, FaceDirection, InnerChunkCoords};
use landmark_client::game_map::{GameMap, IntegrationOutcome, MeshState};
use landmark_client::loader::ResourceDictionary;
use landmark_client::mesher::process_request;

fn dictionary() -> ResourceDictionary {
    ResourceDictionary::new(vec![
        BlockData { name: String::from("stone"), color: Color { r: 10, g: 20, b: 30 } },
        BlockData { name: String::from("grass"), color: Color { r: 40, g: 50, b: 60 } },
        BlockData { name: String::from("sand"), color: Color { r: 70, g: 80, b: 90 } },
    ])
}

fn one_block_chunk() -> Chunk {
    let mut c = Chunk::new();
    c.set_block(InnerChunkCoords::new(8, 8, 8), Some(0));
    c
}

#[test]
fn lookup_and_adjacency() {
    let mut map = GameMap::new();
    let origin = ChunkCoords::new(0, 0, 0);
    assert!(map.chunk_at(origin).is_none());
    map.insert_chunk(origin, one_block_chunk());
    map.insert_chunk(ChunkCoords::new(1, 0, 0), Chunk::new());
    assert!(map.chunk_at(origin).is_some());
    assert!(map.adjacent(origin, FaceDirection::PosX).is_some());
    assert!(map.adjacent(origin, FaceDirection::NegX).is_none());
    assert!(map.adjacent(origin, FaceDirection::PosY).is_none());
}

#[test]
fn handle_survives_unload_and_reload() {
    let mut map = GameMap::new();
    let coords = ChunkCoords::new(3, 0, -2);
    map.insert_chunk(coords, Chunk::new());
    let handle = map.handle_of(coords).unwrap();
    let removed = map.remove_chunk(coords);
    assert!(removed.is_some());
    assert!(map.chunk_at(coords).is_none());
    // The render slot is still registered while the chunk is unloaded.
    assert_eq!(map.handle_of(coords), Some(handle));
    map.insert_chunk(coords, Chunk::new());
    assert_eq!(map.handle_of(coords), Some(handle));
}

#[test]
fn distinct_coordinates_get_distinct_handles() {
    let mut map = GameMap::new();
    map.insert_chunk(ChunkCoords::new(0, 0, 0), Chunk::new());
    map.insert_chunk(ChunkCoords::new(1, 0, 0), Chunk::new());
    let a = map.handle_of(ChunkCoords::new(0, 0, 0)).unwrap();
    let b = map.handle_of(ChunkCoords::new(1, 0, 0)).unwrap();
    assert_ne!(a, b);
}

#[test]
fn mesh_state_walks_unmeshed_inflight_meshed() {
    let mut map = GameMap::new();
    let dict = dictionary();
    let coords = ChunkCoords::new(0, 0, 0);
    map.insert_chunk(coords, one_block_chunk());
    assert_eq!(map.mesh_state_of(coords), Some(MeshState::Unmeshed));

    let req = map.begin_mesh(coords).unwrap();
    assert_eq!(map.mesh_state_of(coords), Some(MeshState::InFlight));
    // At most one request per chunk while one is in flight.
    assert!(map.begin_mesh(coords).is_none());

    let done = process_request(&req, &dict);
    let handle = map.handle_of(coords).unwrap();
    assert_eq!(map.integrate_result(&done), IntegrationOutcome::Applied(handle));
    assert_eq!(map.mesh_state_of(coords), Some(MeshState::Meshed));
    // A meshed chunk is not re-requested until it is dirtied again.
    assert!(map.begin_mesh(coords).is_none());
}

#[test]
fn stale_result_is_discarded() {
    let mut map = GameMap::new();
    let dict = dictionary();
    let coords = ChunkCoords::new(0, 0, 0);
    map.insert_chunk(coords, one_block_chunk());
    let req = map.begin_mesh(coords).unwrap();
    // The chunk is dirtied again while the request is being processed.
    map.mark_dirty(coords);
    let done = process_request(&req, &dict);
    assert_eq!(map.integrate_result(&done), IntegrationOutcome::Stale);
    assert_eq!(map.mesh_state_of(coords), Some(MeshState::Unmeshed));
}

#[test]
fn result_for_unloaded_chunk_is_reported() {
    let mut map = GameMap::new();
    let dict = dictionary();
    let coords = ChunkCoords::new(0, 0, 0);
    map.insert_chunk(coords, one_block_chunk());
    let req = map.begin_mesh(coords).unwrap();
    map.remove_chunk(coords);
    let done = process_request(&req, &dict);
    assert_eq!(map.integrate_result(&done), IntegrationOutcome::UnknownChunk);
}

#[test]
fn snapshot_does_not_observe_later_edits() {
    let mut map = GameMap::new();
    let coords = ChunkCoords::new(0, 0, 0);
    map.insert_chunk(coords, one_block_chunk());
    let req = map.begin_mesh(coords).unwrap();
    // Edit after the snapshot was taken.
    map.set_block(coords, InnerChunkCoords::new(8, 8, 8), None);
    let cell = req.requested_chunk.get_block(InnerChunkCoords::new(8, 8, 8));
    assert_eq!(cell, Some(0));
    assert_eq!(map.chunk_at(coords).unwrap().get_block(InnerChunkCoords::new(8, 8, 8)), None);
}

#[test]
fn dirty_coords_lists_unmeshed_chunks_only() {
    let mut map = GameMap::new();
    let dict = dictionary();
    let a = ChunkCoords::new(0, 0, 0);
    let b = ChunkCoords::new(1, 0, 0);
    map.insert_chunk(a, one_block_chunk());
    map.insert_chunk(b, one_block_chunk());
    let req = map.begin_mesh(a).unwrap();
    let done = process_request(&req, &dict);
    map.integrate_result(&done);
    let dirty = map.dirty_coords();
    assert_eq!(dirty, vec![b]);
}

#[test]
fn interior_edit_dirties_only_its_chunk() {
    let mut map = GameMap::new();
    let dict = dictionary();
    let a = ChunkCoords::new(0, 0, 0);
    let b = ChunkCoords::new(1, 0, 0);
    map.insert_chunk(a, one_block_chunk());
    map.insert_chunk(b, one_block_chunk());
    for c in [a, b] {
        let req = map.begin_mesh(c).unwrap();
        let done = process_request(&req, &dict);
        map.integrate_result(&done);
    }
    let edited = map.set_block(a, InnerChunkCoords::new(8, 8, 8), Some(1));
    assert!(edited);
    assert_eq!(map.mesh_state_of(a), Some(MeshState::Unmeshed));
    assert_eq!(map.mesh_state_of(b), Some(MeshState::Meshed));
}

#[test]
fn boundary_edit_dirties_the_adjacent_chunk() {
    let mut map = GameMap::new();
    let dict = dictionary();
    let a = ChunkCoords::new(0, 0, 0);
    let b = ChunkCoords::new(1, 0, 0);
    let c = ChunkCoords::new(0, 0, 1);
    map.insert_chunk(a, one_block_chunk());
    map.insert_chunk(b, one_block_chunk());
    map.insert_chunk(c, one_block_chunk());
    for k in [a, b, c] {
        let req = map.begin_mesh(k).unwrap();
        let done = process_request(&req, &dict);
        map.integrate_result(&done);
    }
    // An edit at x = 31 touches the +X boundary: both the edited chunk and
    // its +X neighbor need remeshing; the +Z neighbor does not.
    map.set_block(a, InnerChunkCoords::new(31, 8, 8), Some(2));
    assert_eq!(map.mesh_state_of(a), Some(MeshState::Unmeshed));
    assert_eq!(map.mesh_state_of(b), Some(MeshState::Unmeshed));
    assert_eq!(map.mesh_state_of(c), Some(MeshState::Meshed));
}

#[test]
fn edit_on_unloaded_chunk_is_rejected() {
    let mut map = GameMap::new();
    let edited = map.set_block(ChunkCoords::new(9, 9, 9), InnerChunkCoords::new(0, 0, 0), Some(0));
    assert!(!edited);
}

#[test]
fn test_world_holds_the_expected_terrain() {
    let map = GameMap::new_test();
    // A ten-by-ten grid of chunks around the origin, all awaiting meshing.
    assert_eq!(map.dirty_coords().len(), 100);
    assert!(map.chunk_at(ChunkCoords::new(-5, 0, -5)).is_some());
    assert!(map.chunk_at(ChunkCoords::new(4, 0, 4)).is_some());
    assert!(map.chunk_at(ChunkCoords::new(5, 0, 0)).is_none());
    assert!(map.chunk_at(ChunkCoords::new(0, 1, 0)).is_none());

    // Chunk (0, 0, 0): even parity, so columns are three blocks high, four
    // on the inner plateau; ids cycle with (x + z) % 3.
    let chunk = map.chunk_at(ChunkCoords::new(0, 0, 0)).unwrap();
    assert_eq!(chunk.get_block(InnerChunkCoords::new(0, 0, 0)), Some(0));
    assert_eq!(chunk.get_block(InnerChunkCoords::new(0, 2, 0)), Some(0));
    assert_eq!(chunk.get_block(InnerChunkCoords::new(0, 3, 0)), None);
    assert_eq!(chunk.get_block(InnerChunkCoords::new(3, 3, 3)), Some(0));
    assert_eq!(chunk.get_block(InnerChunkCoords::new(3, 4, 3)), None);
    assert_eq!(chunk.get_block(InnerChunkCoords::new(4, 0, 3)), Some(1));

    // Chunk (1, 0, 0): odd parity, so columns are one block lower.
    let odd = map.chunk_at(ChunkCoords::new(1, 0, 0)).unwrap();
    assert_eq!(odd.get_block(InnerChunkCoords::new(0, 1, 0)), Some(0));
    assert_eq!(odd.get_block(InnerChunkCoords::new(0, 2, 0)), None);
    assert_eq!(odd.get_block(InnerChunkCoords::new(3, 2, 3)), Some(0));
    assert_eq!(odd.get_block(InnerChunkCoords::new(3, 3, 3)), None);
}
