//! Geometry accumulation: vertices, triangle indices, and the transform that
//! places a meshed chunk in the world.
//!
//! Every vertex position here is measured in half-block units. A block's
//! center sits at an odd lattice point `(2x+1, 2y+1, 2z+1)` and each corner of
//! its unit cube is one half-unit away on every axis, so all face geometry is
//! exact integer data. The conversion to floating-point render coordinates
//! (dividing by two) happens outside this crate.

use vstd::prelude::*;
use crate::color::Color;
use crate::coords::{FaceDirection, InnerChunkCoords};

verus! {

/// A three-component integer vector. The unit depends on use: whole blocks
/// for chunk translations, half blocks for vertex positions.
#[derive(Debug, Clone, Copy, PartialEq, Eq, Structural)]
pub struct IVec3 {
    pub x: i32,
    pub y: i32,
    pub z: i32,
}

/// One mesh vertex: a position in half-block units and its display color.
/// All four vertices of a face quad carry the same color.
#[derive(Debug, Clone, Copy, PartialEq, Eq, Structural)]
pub struct Vertex {
    pub position: IVec3,
    pub color: Color,
}

/// Rigid placement of a chunk's mesh: a translation in whole blocks.
/// Face quads are already oriented in chunk-local space, so the rotation of
/// every emitted mesh is the identity and only the translation varies.
#[derive(Debug, Clone, Copy, PartialEq, Eq, Structural)]
pub struct Transform {
    pub translation: IVec3,
}

impl Default for Transform {
    /// Placement at the world origin.
    fn default() -> (t: Transform)
        ensures
            t == (Transform { translation: IVec3 { x: 0, y: 0, z: 0 } }),
    {
        Transform { translation: IVec3 { x: 0, y: 0, z: 0 } }
    }
}

/// Offset, in half-block units, of corner `k` of the quad for face `d` from
/// the block center. These are the four corners of the canonical quad (the
/// `+Y` face of a unit cube, listed row by row) carried by the rigid rotation
/// that orients it toward `d`.
pub open spec fn corner_offset(d: FaceDirection, k: int) -> (int, int, int) {
    match d {
        FaceDirection::PosX => if k == 0 {
            (1int, -1int, -1int)
        } else if k == 1 {
            (1int, -1int, 1int)
        } else if k == 2 {
            (1int, 1int, -1int)
        } else {
            (1int, 1int, 1int)
        },
        FaceDirection::NegX => if k == 0 {
            (-1int, -1int, 1int)
        } else if k == 1 {
            (-1int, -1int, -1int)
        } else if k == 2 {
            (-1int, 1int, 1int)
        } else {
            (-1int, 1int, -1int)
        },
        FaceDirection::PosY => if k == 0 {
            (-1int, 1int, -1int)
        } else if k == 1 {
            (1int, 1int, -1int)
        } else if k == 2 {
            (-1int, 1int, 1int)
        } else {
            (1int, 1int, 1int)
        },
        FaceDirection::NegY => if k == 0 {
            (-1int, -1int, 1int)
        } else if k == 1 {
            (1int, -1int, 1int)
        } else if k == 2 {
            (-1int, -1int, -1int)
        } else {
            (1int, -1int, -1int)
        },
        FaceDirection::PosZ => if k == 0 {
            (1int, -1int, 1int)
        } else if k == 1 {
            (-1int, -1int, 1int)
        } else if k == 2 {
            (1int, 1int, 1int)
        } else {
            (-1int, 1int, 1int)
        },
        FaceDirection::NegZ => if k == 0 {
            (-1int, -1int, -1int)
        } else if k == 1 {
            (1int, -1int, -1int)
        } else if k == 2 {
            (-1int, 1int, -1int)
        } else {
            (1int, 1int, -1int)
        },
    }
}

/// Vertex `k` of the quad for face `d` of the block at cell `(x, y, z)`.
pub open spec fn face_vertex(x: int, y: int, z: int, d: FaceDirection, k: int, color: Color) -> Vertex {
    let (ox, oy, oz) = corner_offset(d, k);
    Vertex {
        position: IVec3 {
            x: (2 * x + 1 + ox) as i32,
            y: (2 * y + 1 + oy) as i32,
            z: (2 * z + 1 + oz) as i32,
        },
        color,
    }
}

/// The four vertices of the quad for face `d` of the block at `(x, y, z)`.
pub open spec fn face_quad(x: int, y: int, z: int, d: FaceDirection, color: Color) -> Seq<Vertex> {
    seq![
        face_vertex(x, y, z, d, 0, color),
        face_vertex(x, y, z, d, 1, color),
        face_vertex(x, y, z, d, 2, color),
        face_vertex(x, y, z, d, 3, color),
    ]
}

/// Index value at position `r` of a quad's six entries, relative to the
/// quad's first vertex: the triangles `(0, 1, 2)` and `(2, 1, 3)`.
pub open spec fn index_pattern(r: int) -> int {
    if r == 0 {
        0
    } else if r == 1 {
        1
    } else if r == 2 {
        2
    } else if r == 3 {
        2
    } else if r == 4 {
        1
    } else {
        3
    }
}

/// The value the index buffer holds at position `i`: quad number `i / 6`
/// starts at vertex `4 * (i / 6)`, plus the in-quad pattern.
pub open spec fn index_at(i: int) -> u16 {
    (4 * (i / 6) + index_pattern(i % 6)) as u16
}

/// Accumulates the mesh of one chunk: vertices and triangle-list indices,
/// four vertices and six indices per visible face, plus the chunk transform.
#[derive(Debug)]
pub struct ModelConstructor {
    pub vertices: Vec<Vertex>,
    pub indices: Vec<u16>,
    pub transform: Transform,
}

impl ModelConstructor {
    /// Number of face quads accumulated so far.
    pub open spec fn face_count(self) -> int {
        self.indices@.len() as int / 6
    }

    /// Geometry well-formedness: four vertices and six indices per face, the
    /// vertex count never exceeds the range of a 16-bit index, and every
    /// index value follows the quad pattern — in particular each index
    /// references a valid vertex position.
    pub open spec fn wf(self) -> bool {
        &&& self.indices@.len() % 6 == 0
        &&& self.vertices@.len() * 6 == self.indices@.len() * 4
        &&& self.vertices@.len() <= 65536
        &&& forall|i: int|
            0 <= i < self.indices@.len() ==> self.indices@[i] == index_at(i)
    }

    /// An empty accumulator placed at the origin.
    pub fn new() -> (mc: ModelConstructor)
        ensures
            mc.wf(),
            mc.vertices@ == Seq::<Vertex>::empty(),
            mc.indices@ == Seq::<u16>::empty(),
            mc.transform == (Transform { translation: IVec3 { x: 0, y: 0, z: 0 } }),
    {
        ModelConstructor {
            vertices: Vec::new(),
            indices: Vec::new(),
            transform: Transform::default(),
        }
    }

    /// Every index value references a valid vertex position.
    pub proof fn lemma_indices_reference_vertices(self)
        requires
            self.wf(),
        ensures
            forall|i: int|
                0 <= i < self.indices@.len() ==> (self.indices@[i] as int) < self.vertices@.len(),
    {
        assert forall|i: int| 0 <= i < self.indices@.len() implies (self.indices@[i] as int)
            < self.vertices@.len() by {
            let q = i / 6;
            let r = i % 6;
            assert(0 <= r < 6 && 0 <= q && q < self.indices@.len() as int / 6) by (nonlinear_arith)
                requires
                    q == i / 6,
                    r == i % 6,
                    0 <= i < self.indices@.len(),
                    self.indices@.len() % 6 == 0,
            ;
            assert(0 <= index_pattern(r) <= 3);
            assert(4 * q + 3 < self.vertices@.len()) by (nonlinear_arith)
                requires
                    0 <= q < self.indices@.len() as int / 6,
                    self.vertices@.len() * 6 == self.indices@.len() * 4,
                    self.indices@.len() % 6 == 0,
            ;
            assert(self.indices@[i] == index_at(i));
            assert(index_at(i) == (4 * q + index_pattern(r)) as u16);
            assert(0 <= 4 * q + index_pattern(r) < 65536);
            assert((self.indices@[i] as int) == 4 * q + index_pattern(r));
        }
    }

    /// Append the quad for one visible block face: four vertices and six
    /// indices continuing from the current end of the index buffer.
    pub fn add_block_face(&mut self, coords: InnerChunkCoords, face_dir: FaceDirection, color: Color)
        requires
            old(self).wf(),
            coords.wf(),
            old(self).vertices@.len() + 4 <= 65536,
        ensures
            final(self).wf(),
            final(self).vertices@ == old(self).vertices@ + face_quad(
                coords.spec_x(),
                coords.spec_y(),
                coords.spec_z(),
                face_dir,
                color,
            ),
            final(self).indices@.len() == old(self).indices@.len() + 6,
            final(self).face_count() == old(self).face_count() + 1,
            final(self).transform == old(self).transform,
    {
        let center = coords.as_block_center();

        let o0 = corner(face_dir, 0);
        let o1 = corner(face_dir, 1);
        let o2 = corner(face_dir, 2);
        let o3 = corner(face_dir, 3);

        let ghost old_vertices = self.vertices@;
        let ghost old_indices = self.indices@;

        self.vertices.push(Vertex {
            position: IVec3 { x: center.x + o0.0, y: center.y + o0.1, z: center.z + o0.2 },
            color,
        });
        self.vertices.push(Vertex {
            position: IVec3 { x: center.x + o1.0, y: center.y + o1.1, z: center.z + o1.2 },
            color,
        });
        self.vertices.push(Vertex {
            position: IVec3 { x: center.x + o2.0, y: center.y + o2.1, z: center.z + o2.2 },
            color,
        });
        self.vertices.push(Vertex {
            position: IVec3 { x: center.x + o3.0, y: center.y + o3.1, z: center.z + o3.2 },
            color,
        });

        proof {
            assert(self.vertices@ =~= old_vertices + face_quad(
                coords.spec_x(),
                coords.spec_y(),
                coords.spec_z(),
                face_dir,
                color,
            ));
        }

        // Indices continue where the buffer left off: right after the last
        // index value, or at zero for the first quad.
        let start_index: u16 = if self.indices.len() > 0 {
            let last = self.indices[self.indices.len() - 1];
            proof {
                assert(last == index_at(old_indices.len() - 1));
                assert(4 * ((old_indices.len() - 1) / 6) + index_pattern((old_indices.len() - 1) % 6)
                    == old_vertices.len() - 1) by (nonlinear_arith)
                    requires
                        old_indices.len() > 0,
                        old_indices.len() % 6 == 0,
                        old_vertices.len() * 6 == old_indices.len() * 4,
                ;
            }
            last + 1
        } else {
            0
        };
        assert(start_index == old_vertices.len());

        self.indices.push(start_index);
        self.indices.push(start_index + 1);
        self.indices.push(start_index + 2);
        self.indices.push(start_index + 2);
        self.indices.push(start_index + 1);
        self.indices.push(start_index + 3);

        proof {
            assert forall|i: int| 0 <= i < self.indices@.len() implies self.indices@[i]
                == index_at(i) by {
                if i < old_indices.len() {
                    assert(self.indices@[i] == old_indices[i]);
                } else {
                    let r = i - old_indices.len();
                    assert(i / 6 == old_indices.len() as int / 6 && i % 6 == r) by (nonlinear_arith)
                        requires
                            old_indices.len() % 6 == 0,
                            0 <= r < 6,
                            i == old_indices.len() + r,
                    ;
                    assert(4 * (old_indices.len() as int / 6) == old_vertices.len())
                        by (nonlinear_arith)
                        requires
                            old_indices.len() % 6 == 0,
                            old_vertices.len() * 6 == old_indices.len() * 4,
                    ;
                }
            }
            assert(self.indices@.len() % 6 == 0) by (nonlinear_arith)
                requires
                    old_indices.len() % 6 == 0,
                    self.indices@.len() == old_indices.len() + 6,
            ;
            assert(self.vertices@.len() * 6 == self.indices@.len() * 4) by (nonlinear_arith)
                requires
                    old_vertices.len() * 6 == old_indices.len() * 4,
                    self.vertices@.len() == old_vertices.len() + 4,
                    self.indices@.len() == old_indices.len() + 6,
            ;
            assert(self.indices@.len() as int / 6 == old_indices.len() as int / 6 + 1)
                by (nonlinear_arith)
                requires
                    old_indices.len() % 6 == 0,
                    self.indices@.len() == old_indices.len() + 6,
            ;
        }
    }
}

/// Offset of corner `k` of the quad for face `d`, in half-block units.
fn corner(d: FaceDirection, k: usize) -> (o: (i32, i32, i32))
    requires
        k < 4,
    ensures
        o.0 as int == corner_offset(d, k as int).0,
        o.1 as int == corner_offset(d, k as int).1,
        o.2 as int == corner_offset(d, k as int).2,
{
    match d {
        FaceDirection::PosX => if k == 0 {
            (1, -1, -1)
        } else if k == 1 {
            (1, -1, 1)
        } else if k == 2 {
            (1, 1, -1)
        } else {
            (1, 1, 1)
        },
        FaceDirection::NegX => if k == 0 {
            (-1, -1, 1)
        } else if k == 1 {
            (-1, -1, -1)
        } else if k == 2 {
            (-1, 1, 1)
        } else {
            (-1, 1, -1)
        },
        FaceDirection::PosY => if k == 0 {
            (-1, 1, -1)
        } else if k == 1 {
            (1, 1, -1)
        } else if k == 2 {
            (-1, 1, 1)
        } else {
            (1, 1, 1)
        },
        FaceDirection::NegY => if k == 0 {
            (-1, -1, 1)
        } else if k == 1 {
            (1, -1, 1)
        } else if k == 2 {
            (-1, -1, -1)
        } else {
            (1, -1, -1)
        },
        FaceDirection::PosZ => if k == 0 {
            (1, -1, 1)
        } else if k == 1 {
            (-1, -1, 1)
        } else if k == 2 {
            (1, 1, 1)
        } else {
            (-1, 1, 1)
        },
        FaceDirection::NegZ => if k == 0 {
            (-1, -1, -1)
        } else if k == 1 {
            (1, -1, -1)
        } else if k == 2 {
            (-1, 1, -1)
        } else {
            (1, 1, -1)
        },
    }
}

} // verus!
