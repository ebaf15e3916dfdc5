//! The linear algebra that the crate takes from `glam`.
//!
//! The vector and matrix types of `glam` are opaque here: a value can be
//! stored, copied and compared for identity, and that is all. The two
//! operations that the crate needs are calls into `glam`, whose contracts
//! are taken on trust; what they return is given a name, and the contracts
//! of the crate speak of those names.

use vstd::prelude::*;
use glam::{Mat4, Quat, Vec3, Vec4};

verus! {

/// `glam::Mat4`, a 4x4 matrix in column-major order.
#[verifier::external_type_specification]
#[verifier::external_body]
pub struct ExMat4(Mat4);

/// `glam::Vec4`, a vector of four components.
#[verifier::external_type_specification]
#[verifier::external_body]
pub struct ExVec4(Vec4);

/// `glam::Vec3`, a vector of three components.
#[verifier::external_type_specification]
#[verifier::external_body]
pub struct ExVec3(Vec3);

/// `glam::Quat`, a rotation as a quaternion.
#[verifier::external_type_specification]
#[verifier::external_body]
pub struct ExQuat(Quat);

/// The matrix that `Mat4::from_scale_rotation_translation` builds from a
/// scale, a rotation and a translation: the rotation's axes, each scaled,
/// and the translation as the last column.
pub uninterp spec fn model_matrix_of(scale: Vec3, rotation: Quat, translation: Vec3) -> Mat4;

/// The vector that `Mat4 * Vec4` yields: the matrix's columns weighted by
/// the vector's components and added up.
pub uninterp spec fn transformed(matrix: Mat4, point: Vec4) -> Vec4;

/// Calls `glam::Mat4::from_scale_rotation_translation`. The contract
/// claims only that the result depends on the three arguments alone: the
/// function computes it from their components by additions and
/// multiplications in a fixed order, and reads nothing else. With the
/// assertion features of `glam` switched off, as they are by default, it
/// accepts every rotation, normalized or not.
#[verifier::external_body]
pub(crate) fn model_matrix(scale: Vec3, rotation: Quat, translation: Vec3) -> (m: Mat4)
    ensures
        m == model_matrix_of(scale, rotation, translation),
{
    Mat4::from_scale_rotation_translation(scale, rotation, translation)
}

/// Calls `Mat4 * Vec4` of `glam`, which is `Mat4::mul_vec4`. The
/// contract claims only that the result depends on the two arguments
/// alone: every backend of `glam` multiplies the columns by the
/// components and adds the products up in the same order.
#[verifier::external_body]
pub(crate) fn transform_point(matrix: &Mat4, point: &Vec4) -> (p: Vec4)
    ensures
        p == transformed(*matrix, *point),
{
    *matrix * *point
}

/// Takes the three corners of a triangle from one space to the next: from
/// the world to the view with the view matrix, from the view to clip space
/// with the projection.
pub fn transform_triangle(matrix: &Mat4, corners: (Vec4, Vec4, Vec4)) -> (moved: (Vec4, Vec4, Vec4))
    ensures
        moved == (
            transformed(*matrix, corners.0),
            transformed(*matrix, corners.1),
            transformed(*matrix, corners.2),
        ),
{
    (
        transform_point(matrix, &corners.0),
        transform_point(matrix, &corners.1),
        transform_point(matrix, &corners.2),
    )
}

} // verus!
