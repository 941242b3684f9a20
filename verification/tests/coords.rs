use landmark_client::coords::{ChunkCoords, FaceDirection, InnerChunkCoords};

#[test]
fn idx_round_trip_all_cells() {
    // The cell-to-index mapping is a bijection over [0, 32768).
    for z in 0..32 {
        for y in 0..32 {
            for x in 0..32 {
                let c = InnerChunkCoords::new(x, y, z);
                let idx = c.as_idx();
                assert!(idx < 32768);
                let back = InnerChunkCoords::from_idx(idx);
                assert_eq!(back, c);
            }
        }
    }
    for idx in 0..32768 {
        assert_eq!(InnerChunkCoords::from_idx(idx).as_idx(), idx);
    }
}

#[test]
fn idx_is_z_major() {
    assert_eq!(InnerChunkCoords::new(0, 0, 0).as_idx(), 0);
    assert_eq!(InnerChunkCoords::new(1, 0, 0).as_idx(), 1);
    assert_eq!(InnerChunkCoords::new(0, 1, 0).as_idx(), 32);
    assert_eq!(InnerChunkCoords::new(0, 0, 1).as_idx(), 1024);
    assert_eq!(InnerChunkCoords::new(5, 7, 11), InnerChunkCoords::from_idx(11 * 1024 + 7 * 32 + 5));
    assert_eq!(InnerChunkCoords::new(31, 31, 31).as_idx(), 32767);
}

#[test]
fn in_bounds_rejects_out_of_range() {
    assert!(InnerChunkCoords::in_bounds(0, 0, 0));
    assert!(InnerChunkCoords::in_bounds(31, 31, 31));
    assert!(!InnerChunkCoords::in_bounds(32, 0, 0));
    assert!(!InnerChunkCoords::in_bounds(0, 32, 0));
    assert!(!InnerChunkCoords::in_bounds(0, 0, 32));
    assert!(!InnerChunkCoords::in_bounds(-1, 0, 0));
    assert!(!InnerChunkCoords::in_bounds(0, -1, 0));
    assert!(!InnerChunkCoords::in_bounds(0, 0, -1));
}

#[test]
fn block_center_is_half_offset() {
    // Centers are expressed in half-block units: (x, y, z) + one half each.
    let p = InnerChunkCoords::new(0, 0, 0).as_block_center();
    assert_eq!((p.x, p.y, p.z), (1, 1, 1));
    let q = InnerChunkCoords::new(3, 10, 31).as_block_center();
    assert_eq!((q.x, q.y, q.z), (7, 21, 63));
}

#[test]
fn face_direction_axis_predicates() {
    let dirs = [
        FaceDirection::PosX,
        FaceDirection::NegX,
        FaceDirection::PosY,
        FaceDirection::NegY,
        FaceDirection::PosZ,
        FaceDirection::NegZ,
    ];
    for (i, d) in dirs.iter().enumerate() {
        assert_eq!(d.index(), i);
        assert_eq!(FaceDirection::from_index(i), *d);
        assert_eq!(d.is_negative(), !d.is_positive());
        // exactly one axis predicate holds
        let axes = [d.is_x(), d.is_y(), d.is_z()];
        assert_eq!(axes.iter().filter(|b| **b).count(), 1);
    }
    assert!(FaceDirection::PosX.is_positive() && FaceDirection::PosX.is_x());
    assert!(FaceDirection::NegX.is_negative() && FaceDirection::NegX.is_x());
    assert!(FaceDirection::PosY.is_positive() && FaceDirection::PosY.is_y());
    assert!(FaceDirection::NegY.is_negative() && FaceDirection::NegY.is_y());
    assert!(FaceDirection::PosZ.is_positive() && FaceDirection::PosZ.is_z());
    assert!(FaceDirection::NegZ.is_negative() && FaceDirection::NegZ.is_z());
}

#[test]
fn face_direction_offsets_are_unit_steps() {
    assert_eq!(FaceDirection::PosX.offset(), (1, 0, 0));
    assert_eq!(FaceDirection::NegX.offset(), (-1, 0, 0));
    assert_eq!(FaceDirection::PosY.offset(), (0, 1, 0));
    assert_eq!(FaceDirection::NegY.offset(), (0, -1, 0));
    assert_eq!(FaceDirection::PosZ.offset(), (0, 0, 1));
    assert_eq!(FaceDirection::NegZ.offset(), (0, 0, -1));
    let c = FaceDirection::NegZ.chunk_offset();
    assert_eq!((c.x, c.y, c.z), (0, 0, -1));
}

#[test]
fn chunk_coords_add_and_translation() {
    let a = ChunkCoords::new(1, -2, 3);
    let b = ChunkCoords::new(-4, 5, -6);
    let s = a.plus(b);
    assert_eq!((s.x, s.y, s.z), (-3, 3, -3));
    // Translation scales by the chunk edge length.
    let t = ChunkCoords::new(2, 0, -1).as_translation();
    assert_eq!((t.x, t.y, t.z), (64, 0, -32));
}
