//! A mesh placed in the world, with its cache of transformed vertices.

use vstd::prelude::*;
use std::rc::Rc;
use glam::{Mat4, Quat, Vec3, Vec4};
use crate::shape::{Face, Shape};
use crate::transform::{model_matrix, model_matrix_of, transform_point, transformed};

verus! {

/// The mathematical content of an object.
pub struct ObjectView {
    /// The model matrix.
    pub matrix: Mat4,
    /// The vertices of the shape, in its own space.
    pub points: Seq<Vec4>,
    /// The triangles of the shape.
    pub triangles: Seq<Face>,
    /// The vertices that were transformed last.
    pub cache: Seq<Vec4>,
    /// Whether the model matrix has changed since the cache was filled.
    pub dirty: bool,
}

impl ObjectView {
    /// The vertices in world space: each point under the model matrix.
    pub open spec fn world(self) -> Seq<Vec4> {
        Seq::new(self.points.len(), |i: int| transformed(self.matrix, self.points[i]))
    }

    /// A cache that is not marked dirty holds the vertices in world space.
    pub open spec fn wf(self) -> bool {
        !self.dirty ==> self.cache == self.world()
    }

    /// The object after its transform has changed: the cache is kept as it
    /// is and marked dirty.
    pub open spec fn evolved(self, matrix: Mat4) -> Self {
        ObjectView { matrix, dirty: true, ..self }
    }

    /// The object after its vertices have been read: a dirty cache has been
    /// filled anew, a clean one has not been touched.
    pub open spec fn refreshed(self) -> Self {
        if self.dirty {
            ObjectView { cache: self.world(), dirty: false, ..self }
        } else {
            self
        }
    }
}

/// A shape, shared with whoever else shows it, under a model transform.
pub struct Object<O: Shape> {
    shape: Rc<O>,
    model_matrix: Mat4,
    tranformed_vertices: Vec<Vec4>,
    dirty: bool,
}

impl<O: Shape> View for Object<O> {
    type V = ObjectView;

    closed spec fn view(&self) -> ObjectView {
        ObjectView {
            matrix: self.model_matrix,
            points: self.shape.points(),
            triangles: self.shape.triangles(),
            cache: self.tranformed_vertices@,
            dirty: self.dirty,
        }
    }
}

impl<O: Shape> Object<O> {
    #[verifier::type_invariant]
    spec fn inv(self) -> bool {
        self@.wf()
    }

    /// Places `shape` in the world, scaled, then rotated, then moved. No
    /// vertex is transformed before the vertices are read.
    pub fn new(shape: Rc<O>, scale: Vec3, rotation: Quat, translation: Vec3) -> (object: Self)
        ensures
            object@ == (ObjectView {
                matrix: model_matrix_of(scale, rotation, translation),
                points: shape.points(),
                triangles: shape.triangles(),
                cache: Seq::empty(),
                dirty: true,
            }),
    {
        let model_matrix = model_matrix(scale, rotation, translation);
        Object { shape, model_matrix, tranformed_vertices: Vec::new(), dirty: true }
    }

    /// Replaces the transform and marks the cache dirty; the cached
    /// vertices themselves are not touched.
    pub fn evolve(&mut self, scale: Vec3, rotation: Quat, translation: Vec3)
        ensures
            final(self)@ == old(self)@.evolved(model_matrix_of(scale, rotation, translation)),
    {
        self.dirty = true;
        self.model_matrix = model_matrix(scale, rotation, translation);
    }

    /// The vertices in world space. They are transformed only if the
    /// transform has changed since they were read last; otherwise the cache
    /// is handed out as it is.
    pub fn get_vertices(&mut self) -> (vertices: &[Vec4])
        ensures
            final(self)@ == old(self)@.refreshed(),
            vertices@ == old(self)@.world(),
            vertices@ == final(self)@.cache,
    {
        proof {
            use_type_invariant(&*self);
        }
        if self.dirty {
            let points = self.shape.get_points();
            let mut fresh: Vec<Vec4> = Vec::new();
            let mut i: usize = 0;
            while i < points.len()
                invariant
                    i <= points@.len(),
                    fresh@ == Seq::new(
                        i as nat,
                        |k: int| transformed(self.model_matrix, points@[k]),
                    ),
                decreases points@.len() - i,
            {
                fresh.push(transform_point(&self.model_matrix, &points[i]));
                i += 1;
            }
            self.tranformed_vertices = fresh;
            self.dirty = false;
        }
        self.tranformed_vertices.as_slice()
    }

    /// The triangles of the shape.
    pub fn get_triangles(&self) -> (faces: &[Face])
        ensures
            faces@ == self@.triangles,
    {
        self.shape.get_triangles()
    }
}

/// Reading the vertices twice with no change of the transform in between
/// gives the same vertices both times, and the second reading leaves the
/// object as it found it: nothing is transformed again.
pub proof fn lemma_read_twice(o: ObjectView)
    ensures
        o.refreshed().refreshed() == o.refreshed(),
        o.refreshed().cache == o.refreshed().refreshed().cache,
        !o.refreshed().dirty,
{
}

/// An object whose cache is clean is not changed by a reading.
pub proof fn lemma_clean_read(o: ObjectView)
    requires
        !o.dirty,
    ensures
        o.refreshed() == o,
{
}

/// Every operation keeps the cache honest: after a change of transform and
/// after a reading, a cache that is not marked dirty holds the vertices in
/// world space.
pub proof fn lemma_cache_honest(o: ObjectView, matrix: Mat4)
    ensures
        o.evolved(matrix).wf(),
        o.refreshed().dirty == false,
        o.wf() ==> o.refreshed().wf() && o.refreshed().cache == o.world(),
{
}

} // verus!
