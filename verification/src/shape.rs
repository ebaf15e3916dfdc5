//! Meshes: vertex positions and the triangles that index them.

use vstd::prelude::*;
use glam::Vec4;

verus! {

/// A triangle of a mesh: the positions of its three corners in the vertex
/// list.
pub type Face = (usize, usize, usize);

/// Why a list of indices is no mesh.
#[derive(Clone, Copy, Debug, PartialEq, Eq)]
pub enum MeshError {
    /// The number of indices is no multiple of three.
    NotTriangles,
    /// The mesh has no vertices.
    NoVertices,
    /// An index names a vertex that the mesh does not have.
    IndexOutOfRange,
}

impl MeshError {
    /// What went wrong, in words.
    pub fn message(&self) -> (text: &'static str)
        ensures
            text@ == match *self {
                MeshError::NotTriangles => "indices are not a multiple of 3"@,
                MeshError::NoVertices => "model has no vertices"@,
                MeshError::IndexOutOfRange => "an index is out of range"@,
            },
    {
        match self {
            MeshError::NotTriangles => "indices are not a multiple of 3",
            MeshError::NoVertices => "model has no vertices",
            MeshError::IndexOutOfRange => "an index is out of range",
        }
    }
}

/// Every corner of the face is one of `vertex_count` vertices.
pub open spec fn face_in_range(face: Face, vertex_count: int) -> bool {
    face.0 < vertex_count && face.1 < vertex_count && face.2 < vertex_count
}

/// Every face names only vertices that exist.
pub open spec fn faces_in_range(faces: Seq<Face>, vertex_count: int) -> bool {
    forall|k: int| 0 <= k < faces.len() ==> face_in_range(#[trigger] faces[k], vertex_count)
}

/// The faces that a flat list of indices spells out, three indices each.
pub open spec fn faces_of(indices: Seq<u32>) -> Seq<Face> {
    Seq::new(
        (indices.len() / 3) as nat,
        |k: int|
            (indices[3 * k] as usize, indices[3 * k + 1] as usize, indices[3 * k + 2] as usize),
    )
}

/// Some index names a vertex that does not exist.
pub open spec fn some_index_out_of_range(indices: Seq<u32>, vertex_count: int) -> bool {
    exists|i: int| 0 <= i < indices.len() && #[trigger] indices[i] >= vertex_count
}

/// Whether every face names only vertices that exist.
pub fn check_faces(faces: &[Face], vertex_count: usize) -> (ok: bool)
    ensures
        ok == faces_in_range(faces@, vertex_count as int),
{
    let mut k: usize = 0;
    while k < faces.len()
        invariant
            k <= faces@.len(),
            forall|j: int| 0 <= j < k ==> face_in_range(#[trigger] faces@[j], vertex_count as int),
        decreases faces@.len() - k,
    {
        let face = faces[k];
        if face.0 >= vertex_count || face.1 >= vertex_count || face.2 >= vertex_count {
            assert(!face_in_range(faces@[k as int], vertex_count as int));
            return false;
        }
        k += 1;
    }
    true
}

/// Groups a flat list of indices into the faces of a mesh with
/// `vertex_count` vertices. The list has to hold whole triangles, the mesh
/// has to have vertices, and every index has to name one of them; the
/// first of these that fails is reported.
pub fn triangulate(indices: &[u32], vertex_count: usize) -> (result: Result<Vec<Face>, MeshError>)
    ensures
        match result {
            Ok(faces) => {
                &&& indices@.len() % 3 == 0
                &&& vertex_count > 0
                &&& !some_index_out_of_range(indices@, vertex_count as int)
                &&& faces@ == faces_of(indices@)
                &&& faces_in_range(faces@, vertex_count as int)
            },
            Err(MeshError::NotTriangles) => indices@.len() % 3 != 0,
            Err(MeshError::NoVertices) => indices@.len() % 3 == 0 && vertex_count == 0,
            Err(MeshError::IndexOutOfRange) => {
                &&& indices@.len() % 3 == 0
                &&& vertex_count > 0
                &&& some_index_out_of_range(indices@, vertex_count as int)
            },
        },
{
    let len = indices.len();
    if len % 3 != 0 {
        return Err(MeshError::NotTriangles);
    }
    if vertex_count == 0 {
        return Err(MeshError::NoVertices);
    }
    let count = len / 3;
    let mut faces: Vec<Face> = Vec::new();
    let mut k: usize = 0;
    while k < count
        invariant
            len == indices@.len(),
            len % 3 == 0,
            count == len / 3,
            vertex_count > 0,
            k <= count,
            faces@ == faces_of(indices@).take(k as int),
            forall|i: int| 0 <= i < 3 * k ==> #[trigger] indices@[i] < vertex_count,
        decreases count - k,
    {
        let a = indices[3 * k];
        let b = indices[3 * k + 1];
        let c = indices[3 * k + 2];
        if a as usize >= vertex_count || b as usize >= vertex_count || c as usize >= vertex_count {
            proof {
                let bad = if a >= vertex_count {
                    3 * k
                } else if b >= vertex_count {
                    3 * k + 1
                } else {
                    3 * k + 2
                };
                assert(indices@[bad] >= vertex_count);
            }
            return Err(MeshError::IndexOutOfRange);
        }
        faces.push((a as usize, b as usize, c as usize));
        proof {
            assert(faces@ =~= faces_of(indices@).take(k as int + 1));
        }
        k += 1;
    }
    proof {
        assert(faces_of(indices@).take(count as int) =~= faces_of(indices@));
    }
    Ok(faces)
}

/// The three corners of a face, looked up in a list of vertices, where the
/// list has them all.
pub fn face_vertices(vertices: &[Vec4], face: Face) -> (corners: Option<(Vec4, Vec4, Vec4)>)
    ensures
        corners == if face_in_range(face, vertices@.len() as int) {
            Some((vertices@[face.0 as int], vertices@[face.1 as int], vertices@[face.2 as int]))
        } else {
            None
        },
{
    let n = vertices.len();
    if face.0 < n && face.1 < n && face.2 < n {
        Some((vertices[face.0], vertices[face.1], vertices[face.2]))
    } else {
        None
    }
}

/// Geometry that can be placed in a scene.
pub trait Shape {
    /// The vertex positions.
    open spec fn points(&self) -> Seq<Vec4> {
        arbitrary()
    }

    /// The triangles.
    open spec fn triangles(&self) -> Seq<Face> {
        arbitrary()
    }

    fn get_points(&self) -> (points: &[Vec4])
        ensures
            points@ == self.points(),
    ;

    fn get_triangles(&self) -> (faces: &[Face])
        ensures
            faces@ == self.triangles(),
    ;
}

/// A mesh: vertex positions and the triangles between them, fixed once
/// built.
pub struct ShapeData {
    points: Vec<Vec4>,
    faces: Vec<Face>,
}

impl ShapeData {
    /// Every face of the mesh names only vertices that it has.
    pub open spec fn wf(&self) -> bool {
        faces_in_range(self.triangles(), self.points().len() as int)
    }

    /// A mesh of the given vertices and faces.
    pub fn new(points: Vec<Vec4>, faces: Vec<Face>) -> (shape: Self)
        requires
            faces_in_range(faces@, points@.len() as int),
        ensures
            shape.wf(),
            shape.points() == points@,
            shape.triangles() == faces@,
    {
        ShapeData { points, faces }
    }
}

impl Shape for ShapeData {
    closed spec fn points(&self) -> Seq<Vec4> {
        self.points@
    }

    closed spec fn triangles(&self) -> Seq<Face> {
        self.faces@
    }

    fn get_points(&self) -> (points: &[Vec4]) {
        self.points.as_slice()
    }

    fn get_triangles(&self) -> (faces: &[Face]) {
        self.faces.as_slice()
    }
}

} // verus!
